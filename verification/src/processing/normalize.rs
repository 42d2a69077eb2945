//! Formatting normalization of markdown text, line by line, aware of fenced
//! code blocks.

use vstd::prelude::*;

use crate::text::{
    append, char_is_whitespace, chars_of, is_blank, is_whitespace, join, join_with, lines_of, split_lines, string_of,
    trim_start, trim_start_ws, trim_ws, views,
};

verus! {

broadcast use vstd::std_specs::vec::group_vec_axioms;

/// Options of [`normalize`].
#[derive(Debug, Clone)]
pub struct NormalizeOptions {
    /// End the text with exactly one newline (default true).
    pub ensure_single_trailing_newline: bool,
    /// Remove trailing spaces and tabs from lines (default true).
    pub trim_trailing_whitespace: bool,
    /// Keep at most this many consecutive blank lines (default 1).
    pub max_consecutive_blank_lines: usize,
    /// Leave the lines of fenced code as they are (default true).
    pub preserve_fenced_code: bool,
    /// Keep one blank line before and after headings (default true).
    pub normalize_heading_spacing: bool,
}

/// The default options: a single trailing newline, trailing whitespace
/// trimmed, at most one blank line in a row, fenced code preserved, and
/// headings spaced.
pub open spec fn default_options() -> NormalizeOptions {
    NormalizeOptions {
        ensure_single_trailing_newline: true,
        trim_trailing_whitespace: true,
        max_consecutive_blank_lines: 1,
        preserve_fenced_code: true,
        normalize_heading_spacing: true,
    }
}

impl Default for NormalizeOptions {
    fn default() -> (r: Self)
        ensures
            r == default_options(),
    {
        NormalizeOptions {
            ensure_single_trailing_newline: true,
            trim_trailing_whitespace: true,
            max_consecutive_blank_lines: 1,
            preserve_fenced_code: true,
            normalize_heading_spacing: true,
        }
    }
}

// ---------------------------------------------------------------------------
// Specifications
// ---------------------------------------------------------------------------

/// A line with trailing spaces, tabs and carriage returns removed.
pub open spec fn trim_trailing_spec(l: Seq<char>) -> Seq<char>
    decreases l.len(),
{
    if l.len() > 0 && (l.last() == ' ' || l.last() == '\t' || l.last() == '\r') {
        trim_trailing_spec(l.drop_last())
    } else {
        l
    }
}

/// A text with its trailing newlines removed.
pub open spec fn trim_trailing_newlines(l: Seq<char>) -> Seq<char>
    decreases l.len(),
{
    if l.len() > 0 && l.last() == '\n' {
        trim_trailing_newlines(l.drop_last())
    } else {
        l
    }
}

/// A line with its trailing carriage returns removed.
pub open spec fn strip_trailing_crs(l: Seq<char>) -> Seq<char>
    decreases l.len(),
{
    if l.len() > 0 && l.last() == '\r' {
        strip_trailing_crs(l.drop_last())
    } else {
        l
    }
}

/// The length of the run of `c` at the start of `s`.
pub open spec fn run_len(s: Seq<char>, c: char) -> nat
    decreases s.len(),
{
    if s.len() > 0 && s[0] == c {
        1 + run_len(s.drop_first(), c)
    } else {
        0
    }
}

/// The number of fence characters (` or ~) at the start of a line.
pub open spec fn fence_count(t: Seq<char>) -> nat {
    if t.len() > 0 && (t[0] == '`' || t[0] == '~') {
        run_len(t, t[0])
    } else {
        0
    }
}

/// Whether a line (with leading whitespace removed) opens or closes a
/// fence: three or more backticks or tildes, and no backtick after the
/// backticks of a backtick fence.
pub open spec fn is_fence_spec(t: Seq<char>) -> bool {
    &&& t.len() > 0
    &&& (t[0] == '`' || t[0] == '~')
    &&& fence_count(t) >= 3
    &&& !(t[0] == '`' && t.skip(fence_count(t) as int).contains('`'))
}

/// Whether a line (with leading whitespace removed) is an ATX heading: `#`
/// characters followed by a space or tab.
pub open spec fn is_heading_spec(t: Seq<char>) -> bool {
    let n = run_len(t, '#');
    &&& n > 0
    &&& n < t.len()
    &&& (t[n as int] == ' ' || t[n as int] == '\t')
}

/// The state of normalization between lines.
pub struct NormState {
    pub out: Seq<Seq<char>>,
    pub in_fence: bool,
    pub fence_char: char,
    pub fence_len: nat,
    pub blanks: nat,
    pub prev_heading: bool,
}

/// `n` empty lines.
pub open spec fn empties(n: nat) -> Seq<Seq<char>> {
    Seq::new(n, |i: int| Seq::<char>::empty())
}

/// The smaller of two counts.
pub open spec fn min_nat(a: nat, b: nat) -> nat {
    if a <= b { a } else { b }
}

/// Output lines with at most `max` of the pending blank lines emitted.
pub open spec fn flush(out: Seq<Seq<char>>, blanks: nat, max: nat) -> Seq<Seq<char>> {
    out + empties(min_nat(blanks, max))
}

/// A fence line as it is emitted.
pub open spec fn fence_emit(line: Seq<char>, o: NormalizeOptions) -> Seq<char> {
    if o.trim_trailing_whitespace && !o.preserve_fenced_code {
        trim_trailing_spec(line)
    } else {
        line
    }
}

/// One line of input processed.
pub open spec fn norm_step(st: NormState, raw: Seq<char>, o: NormalizeOptions) -> NormState {
    let line = strip_trailing_crs(raw);
    let t = trim_start_ws(line);
    let max = o.max_consecutive_blank_lines as nat;
    let fence_here = is_fence_spec(t);
    let ch = if t.len() > 0 && t[0] == '~' { '~' } else { '`' };
    if fence_here && !st.in_fence {
        NormState {
            out: flush(st.out, st.blanks, max).push(fence_emit(line, o)),
            in_fence: true,
            fence_char: ch,
            fence_len: fence_count(t),
            blanks: 0,
            prev_heading: false,
        }
    } else if fence_here && st.in_fence && ch == st.fence_char && fence_count(t) >= st.fence_len {
        NormState { out: st.out.push(fence_emit(line, o)), in_fence: false, blanks: 0, prev_heading: false, ..st }
    } else if st.in_fence {
        let processed = if o.preserve_fenced_code {
            line
        } else if o.trim_trailing_whitespace {
            trim_trailing_spec(line)
        } else {
            line
        };
        if trim_ws(processed).len() == 0 {
            NormState { blanks: st.blanks + 1, prev_heading: false, ..st }
        } else {
            NormState { out: flush(st.out, st.blanks, max).push(processed), blanks: 0, prev_heading: false, ..st }
        }
    } else {
        let lat = if o.trim_trailing_whitespace { trim_trailing_spec(line) } else { line };
        if lat.len() == 0 {
            NormState { blanks: st.blanks + 1, ..st }
        } else {
            let heading = is_heading_spec(t);
            let nhs = o.normalize_heading_spacing;
            let one = min_nat(1, max);
            let out = if heading && nhs {
                if st.out.len() > 0 && st.blanks == 0 {
                    st.out.push(Seq::empty())
                } else {
                    flush(st.out, st.blanks, one)
                }
            } else if st.prev_heading && nhs {
                if st.blanks == 0 {
                    st.out.push(Seq::empty())
                } else {
                    flush(st.out, st.blanks, one)
                }
            } else {
                flush(st.out, st.blanks, max)
            };
            NormState { out: out.push(lat), blanks: 0, prev_heading: heading && nhs, ..st }
        }
    }
}

/// The state before any line.
pub open spec fn initial_state() -> NormState {
    NormState { out: Seq::empty(), in_fence: false, fence_char: '`', fence_len: 0, blanks: 0, prev_heading: false }
}

/// The state after the first `k` lines.
pub open spec fn norm_fold(lines: Seq<Seq<char>>, o: NormalizeOptions, k: int) -> NormState
    decreases k,
{
    if k <= 0 {
        initial_state()
    } else {
        norm_step(norm_fold(lines, o, k - 1), lines[k - 1], o)
    }
}

/// The normalized text: empty input gives a lone newline (or nothing);
/// otherwise the output lines, the pending blank lines flushed, joined with
/// newlines, and ended by exactly one newline when asked.
pub open spec fn normalize_spec(text: Seq<char>, o: NormalizeOptions) -> Seq<char> {
    if text.len() == 0 {
        if o.ensure_single_trailing_newline {
            "\n"@
        } else {
            Seq::empty()
        }
    } else {
        let lines = lines_of(text);
        let st = norm_fold(lines, o, lines.len() as int);
        let joined = join_with(flush(st.out, st.blanks, o.max_consecutive_blank_lines as nat), "\n"@);
        if o.ensure_single_trailing_newline {
            trim_trailing_newlines(joined) + "\n"@
        } else {
            joined
        }
    }
}

// ---------------------------------------------------------------------------
// Implementation
// ---------------------------------------------------------------------------

/// Trim trailing whitespace (spaces, tabs and carriage returns) from a line.
fn trim_trailing(line: &[char]) -> (r: Vec<char>)
    ensures
        r@ == trim_trailing_spec(line@),
{
    let mut n = line.len();
    assert(line@.take(n as int) =~= line@);
    while n > 0 && (line[n - 1] == ' ' || line[n - 1] == '\t' || line[n - 1] == '\r')
        invariant
            n <= line@.len(),
            trim_trailing_spec(line@) == trim_trailing_spec(line@.take(n as int)),
        decreases n,
    {
        assert(line@.take(n as int).drop_last() =~= line@.take(n - 1));
        n = n - 1;
    }
    assert(line@.take(n as int) == trim_trailing_spec(line@.take(n as int)));
    let mut out: Vec<char> = Vec::new();
    let mut k: usize = 0;
    while k < n
        invariant
            k <= n <= line@.len(),
            out@ == line@.take(k as int),
        decreases n - k,
    {
        out.push(line[k]);
        k = k + 1;
    }
    out
}

/// The length of the run of `c` at the start of `s`.
fn run_length(s: &[char], c: char) -> (r: usize)
    ensures
        r == run_len(s@, c),
        r <= s@.len(),
{
    let mut i: usize = 0;
    assert(s@.skip(0) =~= s@);
    while i < s.len() && s[i] == c
        invariant
            i <= s@.len(),
            run_len(s@, c) == i + run_len(s@.skip(i as int), c),
        decreases s@.len() - i,
    {
        assert(s@.skip(i as int).drop_first() =~= s@.skip(i + 1));
        i = i + 1;
    }
    i
}

/// Count the fence characters at the start of a line.
fn count_fence_chars(trimmed: &[char]) -> (r: usize)
    ensures
        r == fence_count(trimmed@),
        r <= trimmed@.len(),
{
    if trimmed.len() > 0 && (trimmed[0] == '`' || trimmed[0] == '~') {
        run_length(trimmed, trimmed[0])
    } else {
        0
    }
}

/// Check if a trimmed line is a fence marker (``` or ~~~, three or more).
fn is_fence_line(trimmed: &[char]) -> (r: bool)
    ensures
        r == is_fence_spec(trimmed@),
{
    if trimmed.len() == 0 {
        return false;
    }
    let first = trimmed[0];
    if first != '`' && first != '~' {
        return false;
    }
    let len = count_fence_chars(trimmed);
    if len < 3 {
        return false;
    }
    if first == '`' {
        let mut i = len;
        while i < trimmed.len()
            invariant
                len <= i <= trimmed@.len(),
                len == fence_count(trimmed@),
                len >= 3,
                trimmed@.len() > 0,
                trimmed@[0] == '`',
                forall|j: int| len <= j < i ==> trimmed@[j] != '`',
            decreases trimmed@.len() - i,
        {
            if trimmed[i] == '`' {
                assert(trimmed@.skip(len as int)[i - len] == '`');
                assert(trimmed@.skip(len as int).contains('`'));
                return false;
            }
            i = i + 1;
        }
        assert forall|j: int| 0 <= j < trimmed@.skip(len as int).len() implies trimmed@.skip(len as int)[j] != '`' by {
            assert(trimmed@.skip(len as int)[j] == trimmed@[j + len]);
        }
    }
    true
}

/// Whether a trimmed line is an ATX heading.
fn is_heading_line(t: &[char]) -> (r: bool)
    ensures
        r == is_heading_spec(t@),
{
    let n = run_length(t, '#');
    n > 0 && n < t.len() && (t[n] == ' ' || t[n] == '\t')
}

/// Emit pending blank lines up to the given maximum.
fn flush_blanks(result_lines: &mut Vec<Vec<char>>, consecutive_blanks: &mut usize, max: usize)
    ensures
        views(final(result_lines)@) == flush(views(old(result_lines)@), *old(consecutive_blanks) as nat, max as nat),
        *final(consecutive_blanks) == 0,
{
    let to_emit = if *consecutive_blanks <= max { *consecutive_blanks } else { max };
    let ghost base = views(result_lines@);
    let mut i: usize = 0;
    while i < to_emit
        invariant
            i <= to_emit,
            views(result_lines@) == base + empties(i as nat),
        decreases to_emit - i,
    {
        push_line(result_lines, Vec::new());
        assert(views(result_lines@) =~= base + empties((i + 1) as nat));
        i = i + 1;
    }
    assert(views(result_lines@) =~= base + empties(to_emit as nat));
    *consecutive_blanks = 0;
}

/// The state of normalization as it runs.
struct Runner {
    out: Vec<Vec<char>>,
    in_fence: bool,
    fence_char: char,
    fence_len: usize,
    blanks: usize,
    prev_heading: bool,
}

impl Runner {
    spec fn model(&self) -> NormState {
        NormState {
            out: views(self.out@),
            in_fence: self.in_fence,
            fence_char: self.fence_char,
            fence_len: self.fence_len as nat,
            blanks: self.blanks as nat,
            prev_heading: self.prev_heading,
        }
    }
}

fn push_line(out: &mut Vec<Vec<char>>, line: Vec<char>)
    ensures
        views(final(out)@) == views(old(out)@).push(line@),
{
    let ghost before = views(out@);
    let ghost l = line@;
    out.push(line);
    assert(views(out@) =~= before.push(l));
}

fn copy_line(l: &[char]) -> (r: Vec<char>)
    ensures
        r@ == l@,
{
    let mut v: Vec<char> = Vec::new();
    append(&mut v, l);
    v
}

/// Process one line.
fn step(st: &mut Runner, raw: &[char], o: &NormalizeOptions)
    requires
        old(st).blanks < usize::MAX,
    ensures
        final(st).model() == norm_step(old(st).model(), raw@, *o),
        final(st).blanks <= old(st).blanks + 1,
{
    let mut line: Vec<char> = copy_line(raw);
    assert(line@.take(line@.len() as int) =~= raw@);
    while line.len() > 0 && line[line.len() - 1] == '\r'
        invariant
            strip_trailing_crs(line@) == strip_trailing_crs(raw@),
        decreases line.len(),
    {
        line.pop();
    }
    assert(line@ == strip_trailing_crs(raw@));
    let t = trim_start(line.as_slice());
    let max = o.max_consecutive_blank_lines;
    let fence_here = is_fence_line(t.as_slice());
    let ch = if t.len() > 0 && t[0] == '~' { '~' } else { '`' };
    let count = count_fence_chars(t.as_slice());
    if fence_here && !st.in_fence {
        flush_blanks(&mut st.out, &mut st.blanks, max);
        let emitted = if o.trim_trailing_whitespace && !o.preserve_fenced_code {
            trim_trailing(line.as_slice())
        } else {
            line
        };
        push_line(&mut st.out, emitted);
        st.in_fence = true;
        st.fence_char = ch;
        st.fence_len = count;
        st.prev_heading = false;
    } else if fence_here && st.in_fence && ch == st.fence_char && count >= st.fence_len {
        let emitted = if o.trim_trailing_whitespace && !o.preserve_fenced_code {
            trim_trailing(line.as_slice())
        } else {
            line
        };
        push_line(&mut st.out, emitted);
        st.in_fence = false;
        st.blanks = 0;
        st.prev_heading = false;
    } else if st.in_fence {
        let processed = if o.preserve_fenced_code {
            line
        } else if o.trim_trailing_whitespace {
            trim_trailing(line.as_slice())
        } else {
            line
        };
        if is_blank(processed.as_slice()) {
            st.blanks = st.blanks + 1;
        } else {
            flush_blanks(&mut st.out, &mut st.blanks, max);
            push_line(&mut st.out, processed);
        }
        st.prev_heading = false;
    } else {
        let lat = if o.trim_trailing_whitespace {
            trim_trailing(line.as_slice())
        } else {
            line
        };
        if lat.len() == 0 {
            st.blanks = st.blanks + 1;
        } else {
            let heading = is_heading_line(t.as_slice());
            let nhs = o.normalize_heading_spacing;
            let one: usize = if 1 <= max { 1 } else { max };
            if heading && nhs {
                if st.out.len() > 0 && st.blanks == 0 {
                    push_line(&mut st.out, Vec::new());
                } else {
                    flush_blanks(&mut st.out, &mut st.blanks, one);
                }
            } else if st.prev_heading && nhs {
                if st.blanks == 0 {
                    push_line(&mut st.out, Vec::new());
                } else {
                    flush_blanks(&mut st.out, &mut st.blanks, one);
                }
            } else {
                flush_blanks(&mut st.out, &mut st.blanks, max);
            }
            push_line(&mut st.out, lat);
            st.prev_heading = heading && nhs;
            st.blanks = 0;
        }
    }
}

/// Remove the trailing newlines of a text.
fn trim_newlines_end(s: &[char]) -> (r: Vec<char>)
    ensures
        r@ == trim_trailing_newlines(s@),
{
    let mut n = s.len();
    assert(s@.take(n as int) =~= s@);
    while n > 0 && s[n - 1] == '\n'
        invariant
            n <= s@.len(),
            trim_trailing_newlines(s@) == trim_trailing_newlines(s@.take(n as int)),
        decreases n,
    {
        assert(s@.take(n as int).drop_last() =~= s@.take(n - 1));
        n = n - 1;
    }
    let mut out: Vec<char> = Vec::new();
    let mut k: usize = 0;
    while k < n
        invariant
            k <= n <= s@.len(),
            out@ == s@.take(k as int),
        decreases n - k,
    {
        out.push(s[k]);
        k = k + 1;
    }
    out
}

/// Normalize markdown text according to the given options.
///
/// Line by line, aware of fenced code blocks: blank lines around headings
/// normalized, runs of blank lines collapsed, trailing whitespace trimmed;
/// then a single trailing newline ensured.
pub fn normalize(text: &str, options: &NormalizeOptions) -> (r: String)
    ensures
        r@ == normalize_spec(text@, *options),
{
    let tc = chars_of(text);
    if tc.len() == 0 {
        if options.ensure_single_trailing_newline {
            return string_of(chars_of("\n").as_slice());
        }
        return String::new();
    }
    let lines = split_lines(tc.as_slice());
    let ghost ls = lines_of(text@);
    let mut st = Runner { out: Vec::new(), in_fence: false, fence_char: '`', fence_len: 0, blanks: 0, prev_heading: false };
    assert(views(st.out@) =~= Seq::<Seq<char>>::empty());
    let mut i: usize = 0;
    while i < lines.len()
        invariant
            i <= lines@.len(),
            views(lines@) == ls,
            st.model() == norm_fold(ls, *options, i as int),
            st.blanks <= i,
        decreases lines@.len() - i,
    {
        assert(lines@[i as int]@ == ls[i as int]);
        step(&mut st, lines[i].as_slice(), options);
        i = i + 1;
    }
    let max = options.max_consecutive_blank_lines;
    flush_blanks(&mut st.out, &mut st.blanks, max);
    let sep = chars_of("\n");
    let joined = join(&st.out, sep.as_slice());
    if options.ensure_single_trailing_newline {
        let mut t = trim_newlines_end(joined.as_slice());
        append(&mut t, sep.as_slice());
        string_of(t.as_slice())
    } else {
        string_of(joined.as_slice())
    }
}

} // verus!
