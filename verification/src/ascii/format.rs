use vstd::prelude::*;

use crate::ascii::detect::{compute_min_indent, lead_len, min_indent_of, min_lead};
use crate::ascii::model::{AsciiBlock, AsciiBlockModel, AsciiEdit, AsciiEditModel, AsciiMode};
use crate::error::{diag_views, DiagModel, Diagnostic, Severity};
use crate::text::{
    append, char_vecs_of, chars_eq, chars_of, decimal, decimal_chars, is_whitespace, string_of, string_views, strings_of,
    trim, trim_end, trim_end_ws, trim_ws, views,
};

verus! {

broadcast use vstd::std_specs::vec::group_vec_axioms;

// ---------------------------------------------------------------------------
// Specifications
// ---------------------------------------------------------------------------

/// A line with every tab replaced by four spaces.
pub open spec fn tabs_to_spaces(l: Seq<char>) -> Seq<char>
    decreases l.len(),
{
    if l.len() == 0 {
        Seq::empty()
    } else {
        tabs_to_spaces(l.drop_last()) + if l.last() == '\t' { "    "@ } else { seq![l.last()] }
    }
}

/// The lines with tabs expanded and trailing whitespace removed.
pub open spec fn cleaned(lines: Seq<Seq<char>>) -> Seq<Seq<char>> {
    Seq::new(lines.len(), |i: int| trim_end_ws(tabs_to_spaces(lines[i])))
}

/// The formatted lines: tabs expanded to four spaces, trailing whitespace
/// trimmed, and the common indentation (in spaces) of the non-empty lines
/// removed.
pub open spec fn formatted(lines: Seq<Seq<char>>) -> Seq<Seq<char>> {
    let t = cleaned(lines);
    let m = min_indent_of(t, false);
    if lines.len() == 0 {
        lines
    } else if m == 0 {
        t
    } else {
        Seq::new(t.len(), |i: int| if t[i].len() == 0 { t[i] } else { t[i].skip(m as int) })
    }
}

/// Whether a line, trimmed, is a box border: `+`, then only `-`, `=` and
/// `+`, then `+`, three characters at least.
pub open spec fn is_border(l: Seq<char>) -> bool {
    let t = trim_ws(l);
    &&& t.len() >= 3
    &&& t[0] == '+'
    &&& t.last() == '+'
    &&& forall|i: int| 1 <= i < t.len() - 1 ==> (t[i] == '-' || t[i] == '=' || t[i] == '+')
}

/// The number of border lines among the first `k` lines.
pub open spec fn border_count(lines: Seq<Seq<char>>, k: int) -> nat
    decreases k,
{
    if k <= 0 {
        0
    } else {
        border_count(lines, k - 1) + if is_border(lines[k - 1]) { 1nat } else { 0nat }
    }
}

/// The number of non-empty lines among the first `k` lines.
pub open spec fn nonempty_count(lines: Seq<Seq<char>>, k: int) -> nat
    decreases k,
{
    if k <= 0 {
        0
    } else {
        nonempty_count(lines, k - 1) + if lines[k - 1].len() > 0 { 1nat } else { 0nat }
    }
}

/// The length of the longest of the first `k` lines.
pub open spec fn max_width(lines: Seq<Seq<char>>, k: int) -> nat
    decreases k,
{
    if k <= 0 {
        0
    } else if lines[k - 1].len() > max_width(lines, k - 1) {
        lines[k - 1].len()
    } else {
        max_width(lines, k - 1)
    }
}

/// A line brought to width `w`: a border extended with its fill (`=` when
/// it has one, else `-`) between its corners, any other line padded with
/// spaces.
pub open spec fn widen(l: Seq<char>, w: nat) -> Seq<char> {
    if l.len() < w {
        if is_border(l) {
            let t = trim_ws(l);
            let inner = t.subrange(1, t.len() - 1);
            let fill = if inner.contains('=') { '=' } else { '-' };
            seq!['+'] + Seq::new((inner.len() + (w - l.len())) as nat, |i: int| fill) + seq!['+']
        } else {
            l + Seq::new((w - l.len()) as nat, |i: int| ' ')
        }
    } else {
        l
    }
}

/// The diagnostic of a box whose borders are too few to repair.
pub open spec fn low_confidence(b: nat, n: nat) -> DiagModel {
    DiagModel {
        code: "ASCII_LOW_CONFIDENCE"@,
        severity: Severity::Warning,
        message: "Box border detection ambiguous ("@ + decimal(b) + "/"@ + decimal(n)
            + " non-empty lines are borders). Skipping repair."@,
        line: None,
        column: None,
        line_range: None,
        suggested_fix: None,
    }
}

/// The diagnostic that aggressive repair falls back to formatting.
pub open spec fn aggressive_note() -> DiagModel {
    DiagModel {
        code: "ASCII_AGGRESSIVE_NOT_IMPLEMENTED"@,
        severity: Severity::Info,
        message: "RepairAggressive mode is not yet implemented. Falling back to FormatOnly."@,
        line: None,
        column: None,
        line_range: None,
        suggested_fix: None,
    }
}

/// The edit of a block: from its lines to the given ones.
pub open spec fn edit_of(b: AsciiBlockModel, after: Seq<Seq<char>>, diags: Seq<DiagModel>) -> AsciiEditModel {
    AsciiEditModel { block_id: b.block_id, changed: b.lines != after, before: b.lines, after, diagnostics: diags }
}

/// What formatting a block in a mode gives: the formatted lines; for
/// `RepairSafe`, when at least two lines and at least half of the non-empty
/// ones are borders, all lines brought to the widest one's width, else the
/// lines left unchanged, with a warning when there is a border at all; for
/// `RepairAggressive`, the formatted lines and a note.
pub open spec fn format_spec(b: AsciiBlockModel, mode: AsciiMode) -> AsciiEditModel {
    let f = formatted(b.lines);
    match mode {
        AsciiMode::FormatOnly => edit_of(b, f, Seq::empty()),
        AsciiMode::RepairAggressive => edit_of(b, f, seq![aggressive_note()]),
        AsciiMode::RepairSafe => {
            let bc = border_count(f, f.len() as int);
            let ne0 = nonempty_count(f, f.len() as int);
            let ne = if ne0 >= 1 { ne0 } else { 1 };
            if 2 * bc < ne || bc < 2 {
                edit_of(b, b.lines, if bc > 0 { seq![low_confidence(bc, ne)] } else { Seq::empty() })
            } else {
                let w = max_width(f, f.len() as int);
                edit_of(b, Seq::new(f.len(), |i: int| widen(f[i], w)), Seq::empty())
            }
        },
    }
}

// ---------------------------------------------------------------------------
// Implementation
// ---------------------------------------------------------------------------

proof fn lemma_lead_le_len(l: Seq<char>, tabs: bool)
    ensures
        lead_len(l, tabs) <= l.len(),
    decreases l.len(),
{
    if l.len() > 0 {
        lemma_lead_le_len(l.drop_first(), tabs);
    }
}

proof fn lemma_min_lead_below(lines: Seq<Seq<char>>, tabs: bool, k: int, i: int)
    requires
        0 <= i < k <= lines.len(),
        lines[i].len() > 0,
    ensures
        min_lead(lines, tabs, k) matches Some(m) && m <= lead_len(lines[i], tabs),
    decreases k,
{
    if i < k - 1 {
        lemma_min_lead_below(lines, tabs, k - 1, i);
    }
}

/// The common indentation of non-empty lines is at most the length of each.
proof fn lemma_min_lead_le(lines: Seq<Seq<char>>, i: int)
    requires
        0 <= i < lines.len(),
    ensures
        lines[i].len() > 0 ==> min_indent_of(lines, false) <= lines[i].len(),
{
    if lines[i].len() > 0 {
        lemma_min_lead_below(lines, false, lines.len() as int, i);
        lemma_lead_le_len(lines[i], false);
    }
}

// ---------------------------------------------------------------------------
// Idempotence of formatting
// ---------------------------------------------------------------------------

/// A line without tabs whose last character (if any) is not whitespace:
/// what cleaning leaves.
pub open spec fn settled(l: Seq<char>) -> bool {
    &&& !l.contains('\t')
    &&& (l.len() == 0 || !is_whitespace(l.last()))
}

proof fn lemma_tabs_to_spaces_clean(l: Seq<char>)
    ensures
        !tabs_to_spaces(l).contains('\t'),
        !l.contains('\t') ==> tabs_to_spaces(l) == l,
    decreases l.len(),
{
    if l.len() > 0 {
        let p = l.drop_last();
        lemma_tabs_to_spaces_clean(p);
        let tail: Seq<char> = if l.last() == '\t' { "    "@ } else { seq![l.last()] };
        reveal_strlit("    ");
        assert forall|i: int| 0 <= i < tabs_to_spaces(l).len() implies tabs_to_spaces(l)[i] != '\t' by {
            if i < tabs_to_spaces(p).len() {
                assert(tabs_to_spaces(l)[i] == tabs_to_spaces(p)[i]);
            } else {
                assert(tabs_to_spaces(l)[i] == tail[i - tabs_to_spaces(p).len()]);
            }
        }
        if !l.contains('\t') {
            assert(!p.contains('\t')) by {
                assert forall|i: int| 0 <= i < p.len() implies p[i] != '\t' by {
                    assert(p[i] == l[i]);
                }
            }
            assert(l.last() != '\t') by {
                assert(l[l.len() - 1] == l.last());
            }
            assert(tabs_to_spaces(l) =~= l);
        }
    }
}

proof fn lemma_trim_end_settles(l: Seq<char>)
    ensures
        trim_end_ws(l).len() <= l.len(),
        trim_end_ws(l) == l.take(trim_end_ws(l).len() as int),
        trim_end_ws(l).len() == 0 || !is_whitespace(trim_end_ws(l).last()),
        (l.len() == 0 || !is_whitespace(l.last())) ==> trim_end_ws(l) == l,
    decreases l.len(),
{
    if l.len() > 0 && is_whitespace(l.last()) {
        lemma_trim_end_settles(l.drop_last());
        assert(l.drop_last().take(trim_end_ws(l).len() as int) =~= l.take(trim_end_ws(l).len() as int));
    } else {
        assert(l.take(l.len() as int) =~= l);
    }
}

/// Cleaning a line settles it, and leaves a settled line as it is.
proof fn lemma_clean_line(l: Seq<char>)
    ensures
        settled(trim_end_ws(tabs_to_spaces(l))),
        settled(l) ==> trim_end_ws(tabs_to_spaces(l)) == l,
{
    lemma_tabs_to_spaces_clean(l);
    let t = tabs_to_spaces(l);
    lemma_trim_end_settles(t);
    let c = trim_end_ws(t);
    assert forall|i: int| 0 <= i < c.len() implies c[i] != '\t' by {
        assert(c[i] == t.take(c.len() as int)[i]);
        assert(t.take(c.len() as int)[i] == t[i]);
    }
}

/// The leading spaces of a line are spaces, and the character after them
/// is not.
proof fn lemma_lead_spaces(l: Seq<char>)
    ensures
        lead_len(l, false) <= l.len(),
        forall|i: int| 0 <= i < lead_len(l, false) ==> l[i] == ' ',
        lead_len(l, false) < l.len() ==> l[lead_len(l, false) as int] != ' ',
    decreases l.len(),
{
    if l.len() > 0 && l[0] == ' ' {
        let d = l.drop_first();
        lemma_lead_spaces(d);
        assert forall|i: int| 0 <= i < lead_len(l, false) implies l[i] == ' ' by {
            if i > 0 {
                assert(l[i] == d[i - 1]);
            }
        }
        if lead_len(l, false) < l.len() {
            assert(l[lead_len(l, false) as int] == d[lead_len(d, false) as int]);
        }
    }
}

/// The leading spaces of a line with its first `m` (leading) spaces
/// skipped are `m` fewer.
proof fn lemma_lead_skip(l: Seq<char>, m: nat)
    requires
        m <= lead_len(l, false),
    ensures
        lead_len(l.skip(m as int), false) == lead_len(l, false) - m,
    decreases m,
{
    lemma_lead_spaces(l);
    if m > 0 {
        let d = l.drop_first();
        assert(l[0] == ' ');
        assert(lead_len(l, false) == 1 + lead_len(d, false));
        lemma_lead_skip(d, (m - 1) as nat);
        assert(d.skip(m - 1) =~= l.skip(m as int));
    } else {
        assert(l.skip(0) =~= l);
    }
}

/// A settled non-empty line has fewer leading spaces than characters.
proof fn lemma_settled_lead(l: Seq<char>)
    requires
        settled(l),
        l.len() > 0,
    ensures
        lead_len(l, false) < l.len(),
{
    lemma_lead_spaces(l);
    if lead_len(l, false) == l.len() {
        assert(l[l.len() - 1] == ' ');
        assert(is_whitespace(l.last()));
    }
}

/// Some non-empty line has exactly the smallest indentation, when there is
/// a non-empty line at all.
proof fn lemma_min_lead_attained(lines: Seq<Seq<char>>, k: int)
    requires
        0 <= k <= lines.len(),
    ensures
        match min_lead(lines, false, k) {
            Some(m) => exists|i: int| 0 <= i < k && lines[i].len() > 0 && lead_len(#[trigger] lines[i], false) == m,
            None => forall|i: int| 0 <= i < k ==> #[trigger] lines[i].len() == 0,
        },
    decreases k,
{
    if k > 0 {
        lemma_min_lead_attained(lines, k - 1);
    }
}

/// The smallest indentation is zero when some non-empty line has none, and
/// every non-empty line has some.
proof fn lemma_min_lead_zero(lines: Seq<Seq<char>>, w: int)
    requires
        0 <= w < lines.len(),
        lines[w].len() > 0,
        lead_len(lines[w], false) == 0,
    ensures
        min_indent_of(lines, false) == 0,
{
    lemma_min_lead_below(lines, false, lines.len() as int, w);
}

/// Formatting settled lines whose smallest indentation is zero leaves them
/// as they are.
proof fn lemma_formatted_fixed(lines: Seq<Seq<char>>)
    requires
        forall|i: int| 0 <= i < lines.len() ==> settled(#[trigger] lines[i]),
        min_indent_of(lines, false) == 0,
    ensures
        formatted(lines) == lines,
{
    assert forall|i: int| 0 <= i < lines.len() implies #[trigger] cleaned(lines)[i] == lines[i] by {
        lemma_clean_line(lines[i]);
    }
    assert(cleaned(lines) =~= lines);
}

/// Formatting is idempotent on lines.
pub proof fn lemma_formatted_idempotent(lines: Seq<Seq<char>>)
    ensures
        formatted(formatted(lines)) == formatted(lines),
{
    let t = cleaned(lines);
    let m = min_indent_of(t, false);
    assert forall|i: int| 0 <= i < t.len() implies settled(#[trigger] t[i]) by {
        lemma_clean_line(lines[i]);
    }
    if lines.len() == 0 {
    } else if m == 0 {
        lemma_formatted_fixed(t);
    } else {
        let f = formatted(lines);
        lemma_min_lead_attained(t, t.len() as int);
        let w = choose|i: int| 0 <= i < t.len() && t[i].len() > 0 && lead_len(#[trigger] t[i], false) == m;
        assert forall|i: int| 0 <= i < f.len() implies settled(#[trigger] f[i]) by {
            if t[i].len() > 0 {
                lemma_min_lead_below(t, false, t.len() as int, i);
                lemma_settled_lead(t[i]);
                let s = t[i].skip(m as int);
                assert(s.last() == t[i].last());
                assert forall|j: int| 0 <= j < s.len() implies s[j] != '\t' by {
                    assert(s[j] == t[i][j + m]);
                }
            }
        }
        lemma_settled_lead(t[w]);
        lemma_lead_skip(t[w], m);
        assert(f[w] == t[w].skip(m as int));
        lemma_min_lead_zero(f, w);
        lemma_formatted_fixed(f);
    }
}

/// Formatting only is idempotent: formatting the lines that it produced
/// again changes nothing.
pub proof fn law_format_only_idempotent(b: AsciiBlockModel)
    ensures
        ({
            let once = format_spec(b, AsciiMode::FormatOnly);
            let twice = format_spec(AsciiBlockModel { lines: once.after, ..b }, AsciiMode::FormatOnly);
            &&& twice.after == once.after
            &&& !twice.changed
        }),
{
    lemma_formatted_idempotent(b.lines);
}

fn expand_tabs(l: &[char]) -> (r: Vec<char>)
    ensures
        r@ == tabs_to_spaces(l@),
{
    let mut out: Vec<char> = Vec::new();
    let mut i: usize = 0;
    while i < l.len()
        invariant
            i <= l@.len(),
            out@ == tabs_to_spaces(l@.take(i as int)),
        decreases l@.len() - i,
    {
        assert(l@.take(i + 1).drop_last() =~= l@.take(i as int));
        if l[i] == '\t' {
            append(&mut out, chars_of("    ").as_slice());
        } else {
            out.push(l[i]);
        }
        i = i + 1;
    }
    assert(l@.take(l@.len() as int) =~= l@);
    out
}

fn skip_chars(l: &[char], m: usize) -> (r: Vec<char>)
    requires
        m <= l@.len(),
    ensures
        r@ == l@.skip(m as int),
{
    let mut out: Vec<char> = Vec::new();
    let mut k = m;
    while k < l.len()
        invariant
            m <= k <= l@.len(),
            out@ == l@.subrange(m as int, k as int),
        decreases l@.len() - k,
    {
        out.push(l[k]);
        k = k + 1;
    }
    assert(out@ =~= l@.skip(m as int));
    out
}

/// Apply the formatting: tabs to four spaces, trailing whitespace trimmed,
/// common indentation removed.
fn apply_formatting(lines: &Vec<Vec<char>>) -> (r: Vec<Vec<char>>)
    ensures
        views(r@) == formatted(views(lines@)),
{
    let ghost ls = views(lines@);
    let mut t: Vec<Vec<char>> = Vec::new();
    let mut i: usize = 0;
    while i < lines.len()
        invariant
            i <= lines@.len(),
            ls == views(lines@),
            views(t@) == cleaned(ls).take(i as int),
        decreases lines@.len() - i,
    {
        let e = expand_tabs(lines[i].as_slice());
        let c = trim_end(e.as_slice());
        let ghost before = views(t@);
        let ghost cv = c@;
        t.push(c);
        assert(views(t@) =~= before.push(cv));
        assert(ls[i as int] == lines@[i as int]@);
        assert(views(t@) =~= cleaned(ls).take(i + 1));
        i = i + 1;
    }
    assert(views(t@) =~= cleaned(ls));
    if lines.len() == 0 {
        let mut out: Vec<Vec<char>> = Vec::new();
        assert(views(out@) =~= ls);
        return out;
    }
    let m = compute_min_indent(&t, false);
    if m == 0 {
        return t;
    }
    let mut out: Vec<Vec<char>> = Vec::new();
    let ghost tv = views(t@);
    let mut k: usize = 0;
    while k < t.len()
        invariant
            k <= t@.len(),
            tv == views(t@),
            views(out@) == Seq::new(k as nat, |q: int| if tv[q].len() == 0 { tv[q] } else { tv[q].skip(m as int) }),
            m == min_indent_of(tv, false),
        decreases t@.len() - k,
    {
        let ghost before = views(out@);
        assert(tv[k as int] == t@[k as int]@);
        proof {
            lemma_min_lead_le(tv, k as int);
        }
        let l = if t[k].len() == 0 {
            crate::domain::document::clone_chars(&t[k])
        } else {
            skip_chars(t[k].as_slice(), m)
        };
        let ghost lv = l@;
        out.push(l);
        assert(views(out@) =~= before.push(lv));
        assert(views(out@) =~= Seq::new((k + 1) as nat, |q: int| if tv[q].len() == 0 { tv[q] } else { tv[q].skip(m as int) }));
        k = k + 1;
    }
    out
}

/// Check if a line looks like a box border (`+---+`, `+==+`, `+---+---+`).
pub fn is_box_border(line: &str) -> (r: bool)
    ensures
        r == is_border(line@),
{
    let t = trim(chars_of(line).as_slice());
    if t.len() < 3 {
        return false;
    }
    if t[0] != '+' || t[t.len() - 1] != '+' {
        return false;
    }
    let mut i: usize = 1;
    while i < t.len() - 1
        invariant
            1 <= i <= t@.len() - 1,
            t@.len() >= 3,
            t@ == trim_ws(line@),
            forall|j: int| 1 <= j < i ==> (t@[j] == '-' || t@[j] == '=' || t@[j] == '+'),
        decreases t@.len() - 1 - i,
    {
        let c = t[i];
        if c != '-' && c != '=' && c != '+' {
            return false;
        }
        i = i + 1;
    }
    true
}

fn border_line(l: &Vec<char>) -> (r: bool)
    ensures
        r == is_border(l@),
{
    is_box_border(string_of(l.as_slice()).as_str())
}

fn lines_differ(a: &Vec<Vec<char>>, b: &Vec<Vec<char>>) -> (r: bool)
    ensures
        r == (views(a@) != views(b@)),
{
    if a.len() != b.len() {
        assert(views(a@).len() != views(b@).len());
        return true;
    }
    let mut i: usize = 0;
    while i < a.len()
        invariant
            i <= a@.len(),
            a@.len() == b@.len(),
            forall|j: int| 0 <= j < i ==> a@[j]@ == b@[j]@,
        decreases a@.len() - i,
    {
        if !chars_eq(a[i].as_slice(), b[i].as_slice()) {
            assert(views(a@)[i as int] != views(b@)[i as int]);
            return true;
        }
        i = i + 1;
    }
    assert(views(a@) =~= views(b@));
    false
}

fn edit_from(block: &AsciiBlock, before: &Vec<Vec<char>>, after: &Vec<Vec<char>>, diagnostics: Vec<Diagnostic>) -> (r:
    AsciiEdit)
    requires
        views(before@) == block@.lines,
    ensures
        r@ == edit_of(block@, views(after@), diag_views(diagnostics@)),
{
    let changed = lines_differ(before, after);
    AsciiEdit {
        block_id: block.block_id,
        changed,
        before: strings_of(before),
        after: strings_of(after),
        diagnostics,
    }
}

fn counts(f: &Vec<Vec<char>>) -> (r: (usize, usize, usize))
    ensures
        r.0 == border_count(views(f@), f@.len() as int),
        r.1 == nonempty_count(views(f@), f@.len() as int),
        r.2 == max_width(views(f@), f@.len() as int),
{
    let ghost fv = views(f@);
    let mut bc: usize = 0;
    let mut ne: usize = 0;
    let mut w: usize = 0;
    let mut i: usize = 0;
    while i < f.len()
        invariant
            i <= f@.len(),
            fv == views(f@),
            bc == border_count(fv, i as int),
            ne == nonempty_count(fv, i as int),
            w == max_width(fv, i as int),
            bc <= i,
            ne <= i,
        decreases f@.len() - i,
    {
        assert(fv[i as int] == f@[i as int]@);
        if border_line(&f[i]) {
            bc = bc + 1;
        }
        if f[i].len() > 0 {
            ne = ne + 1;
        }
        if f[i].len() > w {
            w = f[i].len();
        }
        i = i + 1;
    }
    (bc, ne, w)
}

fn widen_line(l: &Vec<char>, w: usize) -> (r: Vec<char>)
    ensures
        r@ == widen(l@, w as nat),
{
    if l.len() >= w {
        return crate::domain::document::clone_chars(l);
    }
    let pad = w - l.len();
    if border_line(l) {
        let t = trim(l.as_slice());
        let mut has_eq = false;
        let mut j: usize = 1;
        while j < t.len() - 1
            invariant
                1 <= j <= t@.len() - 1,
                t@.len() >= 3,
                has_eq == exists|q: int| 1 <= q < j && t@[q] == '=',
            decreases t@.len() - 1 - j,
        {
            if t[j] == '=' {
                has_eq = true;
            }
            j = j + 1;
        }
        let ghost inner = t@.subrange(1, t@.len() - 1);
        proof {
            if has_eq {
                let q = choose|q: int| 1 <= q < j && t@[q] == '=';
                assert(inner[q - 1] == '=');
            } else {
                assert forall|q: int| 0 <= q < inner.len() implies inner[q] != '=' by {
                    assert(inner[q] == t@[q + 1]);
                }
            }
        }
        let fill = if has_eq { '=' } else { '-' };
        proof {
            crate::text::lemma_trim_len(l@);
        }
        let n = (t.len() - 2) + pad;
        let mut out: Vec<char> = Vec::new();
        out.push('+');
        let mut k: usize = 0;
        while k < n
            invariant
                k <= n,
                out@ == seq!['+'] + Seq::new(k as nat, |i: int| fill),
            decreases n - k,
        {
            out.push(fill);
            k = k + 1;
            assert(out@ =~= seq!['+'] + Seq::new(k as nat, |i: int| fill));
        }
        out.push('+');
        out
    } else {
        let mut out = crate::domain::document::clone_chars(l);
        let mut k: usize = 0;
        while k < pad
            invariant
                k <= pad,
                out@ == l@ + Seq::new(k as nat, |i: int| ' '),
            decreases pad - k,
        {
            out.push(' ');
            k = k + 1;
            assert(out@ =~= l@ + Seq::new(k as nat, |i: int| ' '));
        }
        out
    }
}

fn diag_of(code: &str, severity: Severity, message: Vec<char>) -> (r: Diagnostic)
    ensures
        r@.code == code@,
        r@.severity == severity,
        r@.message == message@,
        r@.line is None,
        r@.column is None,
        r@.line_range is None,
        r@.suggested_fix is None,
{
    Diagnostic {
        code: string_of(chars_of(code).as_slice()),
        severity,
        message: string_of(message.as_slice()),
        line: None,
        column: None,
        line_range: None,
        suggested_fix: None,
    }
}

/// FormatOnly: tabs expanded, trailing whitespace trimmed, indentation
/// left-normalized.
fn format_only(block: &AsciiBlock) -> (r: AsciiEdit)
    ensures
        r@ == format_spec(block@, AsciiMode::FormatOnly),
{
    let before = char_vecs_of(&block.lines);
    let f = apply_formatting(&before);
    let r = edit_from(block, &before, &f, Vec::new());
    assert(r@.diagnostics =~= Seq::<DiagModel>::empty());
    r
}

/// RepairSafe: formatted as in FormatOnly; then, when at least two lines
/// and at least half of the non-empty lines are box borders, every line
/// widened to the widest (borders by their fill character, other lines by
/// spaces); else, confidence being low, the block is left unchanged, with a
/// warning when some border was seen.
fn repair_safe(block: &AsciiBlock) -> (r: AsciiEdit)
    ensures
        r@ == format_spec(block@, AsciiMode::RepairSafe),
{
    let before = char_vecs_of(&block.lines);
    let f = apply_formatting(&before);
    let ghost fv = views(f@);
    let (bc, ne0, w) = counts(&f);
    let ne = if ne0 >= 1 { ne0 } else { 1 };
    if (bc as u128) * 2 < ne as u128 || bc < 2 {
        let mut ds: Vec<Diagnostic> = Vec::new();
        if bc > 0 {
            let mut msg = chars_of("Box border detection ambiguous (");
            append(&mut msg, decimal_chars(bc).as_slice());
            append(&mut msg, chars_of("/").as_slice());
            append(&mut msg, decimal_chars(ne).as_slice());
            append(&mut msg, chars_of(" non-empty lines are borders). Skipping repair.").as_slice());
            ds.push(diag_of("ASCII_LOW_CONFIDENCE", Severity::Warning, msg));
        }
        let r = edit_from(block, &before, &before, ds);
        assert(r@.diagnostics =~= (if bc > 0 { seq![low_confidence(bc as nat, ne as nat)] } else { Seq::empty() }));
        r
    } else {
        let mut aligned: Vec<Vec<char>> = Vec::new();
        let mut i: usize = 0;
        while i < f.len()
            invariant
                i <= f@.len(),
                fv == views(f@),
                views(aligned@) == Seq::new(i as nat, |q: int| widen(fv[q], w as nat)),
            decreases f@.len() - i,
        {
            let l = widen_line(&f[i], w);
            let ghost before = views(aligned@);
            let ghost lv = l@;
            assert(fv[i as int] == f@[i as int]@);
            aligned.push(l);
            assert(views(aligned@) =~= before.push(lv));
            assert(views(aligned@) =~= Seq::new((i + 1) as nat, |q: int| widen(fv[q], w as nat)));
            i = i + 1;
        }
        let r = edit_from(block, &before, &aligned, Vec::new());
        assert(r@.diagnostics =~= Seq::<DiagModel>::empty());
        r
    }
}

/// RepairAggressive: not implemented; formats as FormatOnly and says so
/// in an info diagnostic.
fn repair_aggressive(block: &AsciiBlock) -> (r: AsciiEdit)
    ensures
        r@ == format_spec(block@, AsciiMode::RepairAggressive),
{
    let before = char_vecs_of(&block.lines);
    let f = apply_formatting(&before);
    let d = diag_of(
        "ASCII_AGGRESSIVE_NOT_IMPLEMENTED",
        Severity::Info,
        chars_of("RepairAggressive mode is not yet implemented. Falling back to FormatOnly."),
    );
    let mut ds: Vec<Diagnostic> = Vec::new();
    ds.push(d);
    let r = edit_from(block, &before, &f, ds);
    assert(r@.diagnostics =~= seq![aggressive_note()]);
    r
}

/// Format an ASCII art block according to the given mode.
pub fn format_block(block: &AsciiBlock, mode: AsciiMode) -> (r: AsciiEdit)
    ensures
        r@ == format_spec(block@, mode),
{
    match mode {
        AsciiMode::FormatOnly => format_only(block),
        AsciiMode::RepairSafe => repair_safe(block),
        AsciiMode::RepairAggressive => repair_aggressive(block),
    }
}

} // verus!
