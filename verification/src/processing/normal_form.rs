//! Properties of normalized text: it ends with exactly one line break when
//! asked to, and normalizing it again with the default options gives it
//! back.

use vstd::prelude::*;

use crate::processing::normalize::{
    default_options, NormalizeOptions, empties, fence_count, flush, initial_state, is_fence_spec, is_heading_spec, norm_fold, norm_step,
    normalize_spec, run_len, strip_trailing_crs, trim_trailing_newlines, trim_trailing_spec, NormState,
};
use crate::text::{is_whitespace, join_with, lines_of, split_state, strip_cr, trim_start_ws, trim_ws};

verus! {

// ---------------------------------------------------------------------------
// Lines of text
// ---------------------------------------------------------------------------

/// A line without a line break.
pub open spec fn nl_free(l: Seq<char>) -> bool {
    forall|i: int| 0 <= i < l.len() ==> l[i] != '\n'
}

/// A line that does not end with a carriage return.
pub open spec fn no_cr_end(l: Seq<char>) -> bool {
    l.len() == 0 || l.last() != '\r'
}

/// Splitting a text followed by characters other than line breaks: the same
/// completed lines, and the tail extended.
proof fn lemma_split_append(s: Seq<char>, t: Seq<char>)
    requires
        nl_free(t),
    ensures
        split_state(s + t) == (split_state(s).0, split_state(s).1 + t),
    decreases t.len(),
{
    if t.len() == 0 {
        assert(s + t =~= s);
        assert(split_state(s).1 + t =~= split_state(s).1);
    } else {
        let u = t.drop_last();
        assert((s + t).drop_last() =~= s + u);
        assert((s + t).last() == t.last());
        assert(t[t.len() - 1] == t.last());
        lemma_split_append(s, u);
        assert((split_state(s).1 + u).push(t.last()) =~= split_state(s).1 + t);
    }
}

/// The lines of a text are free of line breaks.
proof fn lemma_split_nl_free(s: Seq<char>)
    ensures
        forall|i: int| 0 <= i < split_state(s).0.len() ==> nl_free(#[trigger] split_state(s).0[i]),
        nl_free(split_state(s).1),
    decreases s.len(),
{
    if s.len() > 0 {
        lemma_split_nl_free(s.drop_last());
        let (done, cur) = split_state(s.drop_last());
        if s.last() != '\n' {
            assert forall|i: int| 0 <= i < cur.push(s.last()).len() implies cur.push(s.last())[i] != '\n' by {
                if i < cur.len() {
                    assert(cur.push(s.last())[i] == cur[i]);
                }
            }
        } else {
            assert(nl_free(strip_cr(cur))) by {
                assert forall|i: int| 0 <= i < strip_cr(cur).len() implies strip_cr(cur)[i] != '\n' by {
                    assert(strip_cr(cur)[i] == cur[i]);
                }
            }
            assert forall|i: int| 0 <= i < done.push(strip_cr(cur)).len() implies nl_free(
                #[trigger] done.push(strip_cr(cur))[i],
            ) by {
                if i < done.len() {
                    assert(done.push(strip_cr(cur))[i] == done[i]);
                }
            }
        }
    }
}

/// The lines of a text are free of line breaks.
proof fn lemma_lines_nl_free(s: Seq<char>)
    ensures
        forall|i: int| 0 <= i < lines_of(s).len() ==> nl_free(#[trigger] lines_of(s)[i]),
{
    lemma_split_nl_free(s);
    let (done, cur) = split_state(s);
    if cur.len() > 0 {
        assert forall|i: int| 0 <= i < done.push(cur).len() implies nl_free(#[trigger] done.push(cur)[i]) by {
            if i < done.len() {
                assert(done.push(cur)[i] == done[i]);
            }
        }
    }
}

/// Joining lines with line breaks and ending with one gives back the same
/// lines, when none holds a line break or ends with a carriage return.
proof fn lemma_split_join(ls: Seq<Seq<char>>)
    requires
        ls.len() > 0,
        forall|i: int| 0 <= i < ls.len() ==> nl_free(#[trigger] ls[i]) && no_cr_end(ls[i]),
    ensures
        split_state(join_with(ls, "\n"@) + "\n"@) == (ls, Seq::<char>::empty()),
    decreases ls.len(),
{
    reveal_strlit("\n");
    let last = ls.last();
    assert(ls[ls.len() - 1] == last);
    if ls.len() == 1 {
        lemma_split_append(Seq::empty(), last);
        assert(Seq::<char>::empty() + last =~= last);
        assert(split_state(Seq::<char>::empty()).1 + last =~= last);
        assert((last + "\n"@).drop_last() =~= last);
        assert((last + "\n"@).last() == '\n');
        assert(strip_cr(last) == last);
        assert(seq![last] =~= ls);
    } else {
        let init = ls.drop_last();
        assert forall|i: int| 0 <= i < init.len() implies nl_free(#[trigger] init[i]) && no_cr_end(init[i]) by {
            assert(init[i] == ls[i]);
        }
        lemma_split_join(init);
        let p = join_with(init, "\n"@) + "\n"@;
        lemma_split_append(p, last);
        assert(split_state(p).1 + last =~= last);
        assert(join_with(ls, "\n"@) + "\n"@ =~= (p + last) + "\n"@);
        assert(((p + last) + "\n"@).drop_last() =~= p + last);
        assert(((p + last) + "\n"@).last() == '\n');
        assert(init.push(strip_cr(last)) =~= ls);
    }
}

/// The lines of joined lines ended by a line break are those lines.
proof fn lemma_lines_of_join(ls: Seq<Seq<char>>)
    requires
        ls.len() > 0,
        forall|i: int| 0 <= i < ls.len() ==> nl_free(#[trigger] ls[i]) && no_cr_end(ls[i]),
    ensures
        lines_of(join_with(ls, "\n"@) + "\n"@) == ls,
{
    lemma_split_join(ls);
}

/// The last character of joined lines is that of the last line, when it is
/// not empty.
proof fn lemma_join_last(ls: Seq<Seq<char>>)
    requires
        ls.len() > 0,
        ls.last().len() > 0,
    ensures
        join_with(ls, "\n"@).len() > 0,
        join_with(ls, "\n"@).last() == ls.last().last(),
{
    assert(ls[ls.len() - 1] == ls.last());
}

/// Trailing line breaks of joined lines: empty lines after a last line that
/// is not empty and holds no line break are all that trimming them removes.
proof fn lemma_trim_join(ls: Seq<Seq<char>>, m: nat)
    requires
        ls.len() > 0,
        ls.last().len() > 0,
        nl_free(ls.last()),
        m <= 1,
    ensures
        trim_trailing_newlines(join_with(ls + empties(m), "\n"@)) == join_with(ls, "\n"@),
{
    reveal_strlit("\n");
    lemma_join_last(ls);
    let j = join_with(ls, "\n"@);
    assert(ls.last()[ls.last().len() - 1] == ls.last().last());
    assert(trim_trailing_newlines(j) == j);
    if m == 0 {
        assert(ls + empties(m) =~= ls);
    } else {
        let e = ls + empties(m);
        assert(e.drop_last() =~= ls);
        assert(e.last() =~= Seq::<char>::empty());
        assert(join_with(e, "\n"@) =~= j + "\n"@);
        assert((j + "\n"@).drop_last() =~= j);
    }
}

// ---------------------------------------------------------------------------
// Lines as normalization sees them
// ---------------------------------------------------------------------------

/// Spaces, tabs and carriage returns only.
pub open spec fn blanks_only(w: Seq<char>) -> bool {
    forall|i: int| 0 <= i < w.len() ==> (w[i] == ' ' || w[i] == '\t' || w[i] == '\r')
}

/// Trimming trailing spaces and tabs keeps a prefix, removes only spaces
/// and tabs, and is idempotent.
proof fn lemma_trim_trailing(l: Seq<char>)
    ensures
        trim_trailing_spec(l).len() <= l.len(),
        trim_trailing_spec(l) == l.take(trim_trailing_spec(l).len() as int),
        blanks_only(l.skip(trim_trailing_spec(l).len() as int)),
        trim_trailing_spec(trim_trailing_spec(l)) == trim_trailing_spec(l),
        no_cr_end(trim_trailing_spec(l)),
    decreases l.len(),
{
    if l.len() > 0 && (l.last() == ' ' || l.last() == '\t' || l.last() == '\r') {
        let d = l.drop_last();
        lemma_trim_trailing(d);
        let k = trim_trailing_spec(d).len() as int;
        assert(d.take(k) =~= l.take(k));
        assert forall|i: int| 0 <= i < l.skip(k).len() implies (l.skip(k)[i] == ' ' || l.skip(k)[i] == '\t'
            || l.skip(k)[i] == '\r') by {
            if i < d.skip(k).len() {
                assert(l.skip(k)[i] == d.skip(k)[i]);
            } else {
                assert(l.skip(k)[i] == l[l.len() - 1]);
            }
        }
    } else {
        assert(l.take(l.len() as int) =~= l);
        assert(l.skip(l.len() as int) =~= Seq::<char>::empty());
    }
}

/// Spaces and tabs are all trimmed from the start.
proof fn lemma_trim_start_blanks(w: Seq<char>)
    requires
        blanks_only(w),
    ensures
        trim_start_ws(w).len() == 0,
    decreases w.len(),
{
    if w.len() > 0 {
        assert(is_whitespace(w[0]));
        assert(blanks_only(w.drop_first())) by {
            assert forall|i: int| 0 <= i < w.drop_first().len() implies (w.drop_first()[i] == ' ' || w.drop_first()[i]
                == '\t' || w.drop_first()[i] == '\r') by {
                assert(w.drop_first()[i] == w[i + 1]);
            }
        }
        lemma_trim_start_blanks(w.drop_first());
    }
}

/// Trimming the start of a text followed by spaces and tabs.
proof fn lemma_trim_start_append(x: Seq<char>, w: Seq<char>)
    requires
        blanks_only(w),
    ensures
        trim_start_ws(x + w) == (if trim_start_ws(x).len() == 0 {
            Seq::<char>::empty()
        } else {
            trim_start_ws(x) + w
        }),
    decreases x.len(),
{
    if x.len() == 0 {
        assert(x + w =~= w);
        lemma_trim_start_blanks(w);
    } else if is_whitespace(x[0]) {
        assert((x + w).drop_first() =~= x.drop_first() + w);
        assert((x + w)[0] == x[0]);
        lemma_trim_start_append(x.drop_first(), w);
    } else {
        assert((x + w)[0] == x[0]);
    }
}

proof fn lemma_run_le(p: Seq<char>, c: char)
    ensures
        run_len(p, c) <= p.len(),
    decreases p.len(),
{
    if p.len() > 0 && p[0] == c {
        lemma_run_le(p.drop_first(), c);
    }
}

/// A run of `c` is not lengthened by what does not start with `c`.
proof fn lemma_run_append(p: Seq<char>, w: Seq<char>, c: char)
    requires
        w.len() == 0 || w[0] != c,
    ensures
        run_len(p + w, c) == run_len(p, c),
    decreases p.len(),
{
    if p.len() == 0 {
        assert(p + w =~= w);
    } else if p[0] == c {
        assert((p + w).drop_first() =~= p.drop_first() + w);
        assert((p + w)[0] == c);
        lemma_run_append(p.drop_first(), w, c);
    } else {
        assert((p + w)[0] == p[0]);
    }
}

/// A fence line stays one with spaces and tabs after it.
proof fn lemma_fence_append(p: Seq<char>, w: Seq<char>)
    requires
        blanks_only(w),
        is_fence_spec(p),
    ensures
        is_fence_spec(p + w),
{
    let t = p + w;
    assert(t[0] == p[0]);
    assert(w.len() == 0 || w[0] != p[0]);
    lemma_run_append(p, w, p[0]);
    lemma_run_le(p, p[0]);
    let fc = fence_count(p) as int;
    assert(fence_count(t) == fence_count(p));
    if t[0] == '`' && t.skip(fc).contains('`') {
        let j = choose|j: int| 0 <= j < t.skip(fc).len() && t.skip(fc)[j] == '`';
        if fc + j < p.len() {
            assert(p.skip(fc)[j] == '`');
            assert(p.skip(fc).contains('`'));
        } else {
            assert(t.skip(fc)[j] == w[fc + j - p.len()]);
        }
    }
}

/// A heading line stays one with spaces and tabs after it.
proof fn lemma_heading_append(p: Seq<char>, w: Seq<char>)
    requires
        blanks_only(w),
        is_heading_spec(p),
    ensures
        is_heading_spec(p + w),
{
    lemma_run_append(p, w, '#');
    assert((p + w)[run_len(p, '#') as int] == p[run_len(p, '#') as int]);
}

/// A line outside fenced code, once its trailing spaces and tabs are
/// trimmed: trimming again keeps it, and it opens no fence and is no heading
/// unless the untrimmed line was.
proof fn lemma_content_line(line: Seq<char>)
    requires
        trim_trailing_spec(line).len() > 0,
    ensures
        trim_trailing_spec(trim_trailing_spec(line)) == trim_trailing_spec(line),
        !is_fence_spec(trim_start_ws(line)) ==> !is_fence_spec(trim_start_ws(trim_trailing_spec(line))),
        is_heading_spec(trim_start_ws(trim_trailing_spec(line))) ==> is_heading_spec(trim_start_ws(line)),
{
    lemma_trim_trailing(line);
    let lat = trim_trailing_spec(line);
    let w = line.skip(lat.len() as int);
    assert(line =~= lat + w);
    lemma_trim_start_append(lat, w);
    let p = trim_start_ws(lat);
    if p.len() > 0 {
        if is_fence_spec(p) {
            lemma_fence_append(p, w);
        }
        if is_heading_spec(p) {
            lemma_heading_append(p, w);
        }
    }
}

/// Removing trailing carriage returns keeps a prefix and leaves none at
/// the end.
proof fn lemma_strip_crs(l: Seq<char>)
    ensures
        strip_trailing_crs(l).len() <= l.len(),
        strip_trailing_crs(l) == l.take(strip_trailing_crs(l).len() as int),
        no_cr_end(strip_trailing_crs(l)),
    decreases l.len(),
{
    if l.len() > 0 && l.last() == '\r' {
        let d = l.drop_last();
        lemma_strip_crs(d);
        assert(d.take(strip_trailing_crs(d).len() as int) =~= l.take(strip_trailing_crs(d).len() as int));
    } else {
        assert(l.take(l.len() as int) =~= l);
    }
}

/// The line that normalization reads from a raw line, and its trimmed
/// form, hold no line break when the raw line holds none.
proof fn lemma_line_of(raw: Seq<char>)
    requires
        nl_free(raw),
    ensures
        nl_free(strip_trailing_crs(raw)),
        nl_free(trim_trailing_spec(strip_trailing_crs(raw))),
        no_cr_end(strip_trailing_crs(raw)),
{
    lemma_strip_crs(raw);
    let line = strip_trailing_crs(raw);
    assert forall|i: int| 0 <= i < line.len() implies line[i] != '\n' by {
        assert(line[i] == raw.take(line.len() as int)[i]);
    }
    lemma_trim_trailing(line);
    let lat = trim_trailing_spec(line);
    assert forall|i: int| 0 <= i < lat.len() implies lat[i] != '\n' by {
        assert(lat[i] == line.take(lat.len() as int)[i]);
    }
}


// ---------------------------------------------------------------------------
// Normalizing the normalized lines again
// ---------------------------------------------------------------------------

/// What holds of normalization's state between lines: a heading was last
/// emitted only outside fenced code and after some output, the last output
/// line is not empty, and no output line holds a line break.
pub open spec fn inv_state(s: NormState) -> bool {
    &&& (s.prev_heading ==> s.out.len() > 0 && !s.in_fence)
    &&& (s.out.len() > 0 ==> s.out.last().len() > 0)
    &&& forall|i: int| 0 <= i < s.out.len() ==> nl_free(#[trigger] s.out[i]) && no_cr_end(s.out[i])
}

/// The state of a second pass over the output of a first, once it has read
/// the lines output so far: the same output, no pending blank line, the
/// same fence, and a heading last emitted only if the first pass emitted one.
pub open spec fn replays(s2: NormState, s1: NormState) -> bool {
    &&& s2.out == s1.out
    &&& s2.blanks == 0
    &&& s2.in_fence == s1.in_fence
    &&& s2.fence_char == s1.fence_char
    &&& s2.fence_len == s1.fence_len
    &&& (s2.prev_heading ==> s1.prev_heading)
}

/// `a` is a prefix of `b`.
pub open spec fn is_prefix(a: Seq<Seq<char>>, b: Seq<Seq<char>>) -> bool {
    a.len() <= b.len() && b.take(a.len() as int) == a
}

proof fn lemma_prefix_trans(a: Seq<Seq<char>>, b: Seq<Seq<char>>, c: Seq<Seq<char>>)
    requires
        is_prefix(a, b),
        is_prefix(b, c),
    ensures
        is_prefix(a, c),
{
    assert(c.take(a.len() as int) =~= a) by {
        assert forall|i: int| 0 <= i < a.len() implies c.take(a.len() as int)[i] == a[i] by {
            assert(c.take(b.len() as int)[i] == b[i]);
            assert(b.take(a.len() as int)[i] == a[i]);
        }
    }
}

/// The output after a line extends the output before it.
proof fn lemma_step_extends(s: NormState, raw: Seq<char>)
    ensures
        is_prefix(s.out, norm_step(s, raw, default_options()).out),
{
    let s1 = norm_step(s, raw, default_options());
    assert(s1.out.take(s.out.len() as int) =~= s.out);
}

/// One line keeps the invariant of the state.
proof fn lemma_inv_step(s: NormState, raw: Seq<char>)
    requires
        inv_state(s),
        nl_free(raw),
    ensures
        inv_state(norm_step(s, raw, default_options())),
{
    let o = default_options();
    let line = strip_trailing_crs(raw);
    lemma_line_of(raw);
    lemma_trim_trailing(line);
    let lat = trim_trailing_spec(line);
    let s1 = norm_step(s, raw, o);
    assert(trim_start_ws(Seq::<char>::empty()) =~= Seq::<char>::empty());
    assert(trim_ws(Seq::<char>::empty()) =~= Seq::<char>::empty());
    lemma_step_extends(s, raw);
    assert forall|i: int| 0 <= i < s1.out.len() implies nl_free(#[trigger] s1.out[i]) && no_cr_end(s1.out[i]) by {
        if i < s.out.len() {
            assert(s1.out.take(s.out.len() as int)[i] == s.out[i]);
        } else if i < s1.out.len() - 1 {
            assert(s1.out[i] =~= Seq::<char>::empty());
        }
    }
}

/// The invariant holds after any number of lines.
proof fn lemma_inv_fold(lines: Seq<Seq<char>>, k: int)
    requires
        0 <= k <= lines.len(),
        forall|i: int| 0 <= i < lines.len() ==> nl_free(#[trigger] lines[i]),
    ensures
        inv_state(norm_fold(lines, default_options(), k)),
    decreases k,
{
    if k > 0 {
        lemma_inv_fold(lines, k - 1);
        lemma_inv_step(norm_fold(lines, default_options(), k - 1), lines[k - 1]);
    }
}


/// An empty line read by the second pass only adds a pending blank line
/// (and, inside fenced code, forgets a heading).
proof fn lemma_empty_step(s: NormState)
    ensures
        norm_step(s, Seq::<char>::empty(), default_options()) == (NormState {
            blanks: s.blanks + 1,
            prev_heading: if s.in_fence { false } else { s.prev_heading },
            ..s
        }),
{
    let e = Seq::<char>::empty();
    assert(strip_trailing_crs(e) == e);
    assert(trim_start_ws(e) == e);
    assert(!is_fence_spec(e));
    assert(trim_trailing_spec(e) == e);
    assert(trim_ws(e) =~= e);
}

/// The second pass, having replayed the output of the first before a line,
/// replays what the first outputs for that line.
proof fn lemma_replay_step(s1: NormState, raw: Seq<char>, big: Seq<Seq<char>>)
    requires
        inv_state(s1),
        nl_free(raw),
        replays(norm_fold(big, default_options(), s1.out.len() as int), s1),
        is_prefix(norm_step(s1, raw, default_options()).out, big),
        forall|i: int| 0 <= i < big.len() ==> no_cr_end(#[trigger] big[i]),
    ensures
        replays(
            norm_fold(big, default_options(), norm_step(s1, raw, default_options()).out.len() as int),
            norm_step(s1, raw, default_options()),
        ),
{
    let o = default_options();
    let a = s1.out.len() as int;
    let s2 = norm_fold(big, o, a);
    let n1 = norm_step(s1, raw, o);
    let line = strip_trailing_crs(raw);
    let t = trim_start_ws(line);
    let b = s1.blanks;
    let e = Seq::<char>::empty();
    lemma_step_extends(s1, raw);
    lemma_trim_trailing(line);
    assert(trim_start_ws(e) == e);
    assert(trim_ws(e) =~= e);
    assert forall|j: int| a <= j < n1.out.len() implies big[j] == #[trigger] n1.out[j] by {
        assert(big.take(n1.out.len() as int)[j] == n1.out[j]);
    }
    let fh = is_fence_spec(t);
    let ch = if t.len() > 0 && t[0] == '~' { '~' } else { '`' };
    if fh && !s1.in_fence {
        // a fence opens: pending blank lines (at most one), then the line
        assert(line.len() > 0);
        let x = line;
        if b == 0 {
            assert(n1.out =~= s1.out.push(x));
            assert(n1.out[a] == x);
            assert(big[a] == x);
            assert(no_cr_end(big[a]));
            assert(strip_trailing_crs(x) == x);
            assert(norm_fold(big, o, a + 1) == norm_step(s2, big[a], o));
            assert(flush(s2.out, 0, 1) =~= s2.out);
        } else {
            assert(n1.out =~= s1.out.push(e).push(x));
            assert(n1.out[a] == e);
            assert(big[a] == e);
            assert(n1.out[a + 1] == x);
            assert(big[a + 1] == x);
            assert(no_cr_end(big[a + 1]));
            assert(strip_trailing_crs(x) == x);
            lemma_empty_step(s2);
            let s2a = norm_fold(big, o, a + 1);
            assert(s2a == norm_step(s2, big[a], o));
            assert(norm_fold(big, o, a + 2) == norm_step(s2a, big[a + 1], o));
            assert(flush(s2a.out, 1, 1) =~= s2.out.push(e));
        }
    } else if fh && s1.in_fence && ch == s1.fence_char && fence_count(t) >= s1.fence_len {
        // a fence closes
        assert(line.len() > 0);
        assert(n1.out =~= s1.out.push(line));
        assert(n1.out[a] == line);
        assert(big[a] == line);
        assert(no_cr_end(big[a]));
        assert(strip_trailing_crs(line) == line);
        assert(norm_fold(big, o, a + 1) == norm_step(s2, big[a], o));
    } else if s1.in_fence {
        if trim_ws(line).len() == 0 {
            assert(n1.out == s1.out);
        } else {
            assert(line.len() > 0);
            if b == 0 {
                assert(n1.out =~= s1.out.push(line));
                assert(n1.out[a] == line);
                assert(big[a] == line);
                assert(no_cr_end(big[a]));
                assert(strip_trailing_crs(line) == line);
                assert(norm_fold(big, o, a + 1) == norm_step(s2, big[a], o));
                assert(flush(s2.out, 0, 1) =~= s2.out);
            } else {
                assert(n1.out =~= s1.out.push(e).push(line));
                assert(n1.out[a] == e);
                assert(big[a] == e);
                assert(n1.out[a + 1] == line);
                assert(big[a + 1] == line);
                assert(no_cr_end(big[a + 1]));
                assert(strip_trailing_crs(line) == line);
                lemma_empty_step(s2);
                let s2a = norm_fold(big, o, a + 1);
                assert(s2a == norm_step(s2, big[a], o));
                assert(norm_fold(big, o, a + 2) == norm_step(s2a, big[a + 1], o));
                assert(flush(s2a.out, 1, 1) =~= s2.out.push(e));
            }
        }
    } else {
        let lat = trim_trailing_spec(line);
        if lat.len() == 0 {
            assert(n1.out == s1.out);
        } else {
            lemma_content_line(line);
            let h1 = is_heading_spec(t);
            let h2 = is_heading_spec(trim_start_ws(lat));
            let with_blank = if h1 {
                !(s1.out.len() > 0 && b == 0) && b > 0 || (s1.out.len() > 0 && b == 0)
            } else if s1.prev_heading {
                true
            } else {
                b > 0
            };
            if with_blank {
                assert(n1.out =~= s1.out.push(e).push(lat));
                assert(n1.out[a] == e);
                assert(big[a] == e);
                assert(n1.out[a + 1] == lat);
                assert(big[a + 1] == lat);
                assert(no_cr_end(big[a + 1]));
                assert(strip_trailing_crs(lat) == lat);
                lemma_empty_step(s2);
                let s2a = norm_fold(big, o, a + 1);
                assert(s2a == norm_step(s2, big[a], o));
                assert(norm_fold(big, o, a + 2) == norm_step(s2a, big[a + 1], o));
                assert(flush(s2a.out, 1, 1) =~= s2.out.push(e));
            } else {
                assert(n1.out =~= s1.out.push(lat));
                assert(n1.out[a] == lat);
                assert(big[a] == lat);
                assert(no_cr_end(big[a]));
                assert(strip_trailing_crs(lat) == lat);
                assert(norm_fold(big, o, a + 1) == norm_step(s2, big[a], o));
                assert(flush(s2.out, 0, 1) =~= s2.out);
            }
        }
    }
}


/// Replaying the output of the first `k` lines: a second pass over lines
/// that start with that output has, after reading it, the state that
/// `replays` the first pass's.
proof fn lemma_replay(lines: Seq<Seq<char>>, big: Seq<Seq<char>>, k: int)
    requires
        0 <= k <= lines.len(),
        forall|i: int| 0 <= i < lines.len() ==> nl_free(#[trigger] lines[i]),
        is_prefix(norm_fold(lines, default_options(), k).out, big),
        forall|i: int| 0 <= i < big.len() ==> no_cr_end(#[trigger] big[i]),
    ensures
        replays(
            norm_fold(big, default_options(), norm_fold(lines, default_options(), k).out.len() as int),
            norm_fold(lines, default_options(), k),
        ),
    decreases k,
{
    let o = default_options();
    if k == 0 {
        assert(norm_fold(big, o, 0) == initial_state());
    } else {
        let prev = norm_fold(lines, o, k - 1);
        lemma_step_extends(prev, lines[k - 1]);
        lemma_prefix_trans(prev.out, norm_fold(lines, o, k).out, big);
        lemma_replay(lines, big, k - 1);
        lemma_inv_fold(lines, k - 1);
        lemma_replay_step(prev, lines[k - 1], big);
    }
}

/// A lone line break normalizes to itself.
proof fn lemma_newline_fixed()
    ensures
        normalize_spec("\n"@, default_options()) == "\n"@,
{
    reveal_strlit("\n");
    let o = default_options();
    let n = "\n"@;
    let e = Seq::<char>::empty();
    assert(n.drop_last() =~= e);
    assert(n.last() == '\n');
    assert(split_state(e) == (Seq::<Seq<char>>::empty(), e));
    assert(strip_cr(e) == e);
    assert(split_state(n).0 =~= seq![e]);
    assert(split_state(n).1 =~= e);
    assert(lines_of(n) =~= seq![e]);
    lemma_empty_step(initial_state());
    let ls = seq![e];
    assert(ls[0] == e);
    assert(norm_fold(ls, o, 0) == initial_state());
    assert(norm_fold(ls, o, 1) == norm_step(initial_state(), e, o));
    assert(flush(Seq::empty(), 1, 1) =~= seq![e]);
    assert(join_with(seq![e], n) == e);
    assert(trim_trailing_newlines(e) == e);
    assert(e + n =~= n);
}

/// Normalizing with the default options is idempotent: normalizing the
/// normalized text again gives it back.
pub proof fn law_normalize_idempotent(text: Seq<char>)
    ensures
        normalize_spec(normalize_spec(text, default_options()), default_options()) == normalize_spec(
            text,
            default_options(),
        ),
{
    reveal_strlit("\n");
    let o = default_options();
    let n1 = normalize_spec(text, o);
    lemma_newline_fixed();
    if text.len() > 0 {
        let lines = lines_of(text);
        lemma_lines_nl_free(text);
        let st = norm_fold(lines, o, lines.len() as int);
        lemma_inv_fold(lines, lines.len() as int);
        let m = if st.blanks <= 1 { st.blanks } else { 1 };
        assert(flush(st.out, st.blanks, 1) == st.out + empties(m));
        if st.out.len() == 0 {
            let e = Seq::<char>::empty();
            assert(join_with(st.out + empties(m), "\n"@) == e) by {
                if m == 1 {
                    assert(st.out + empties(m) =~= seq![e]);
                } else {
                    assert(st.out + empties(m) =~= Seq::<Seq<char>>::empty());
                }
            }
            assert(n1 =~= "\n"@);
        } else {
            let out = st.out;
            assert(out[out.len() - 1] == out.last());
            lemma_trim_join(out, m);
            lemma_trim_join(out, 0);
            assert(n1 == join_with(out, "\n"@) + "\n"@);
            lemma_lines_of_join(out);
            assert(is_prefix(out, out)) by {
                assert(out.take(out.len() as int) =~= out);
            }
            lemma_replay(lines, out, lines.len() as int);
            let st2 = norm_fold(out, o, out.len() as int);
            assert(flush(st2.out, st2.blanks, 1) =~= out + empties(0));
            assert(n1.len() > 0);
        }
    }
}

/// Trimming trailing line breaks leaves none at the end.
proof fn lemma_trim_newlines(l: Seq<char>)
    ensures
        trim_trailing_newlines(l).len() == 0 || trim_trailing_newlines(l).last() != '\n',
    decreases l.len(),
{
    if l.len() > 0 && l.last() == '\n' {
        lemma_trim_newlines(l.drop_last());
    }
}

/// With `ensure_single_trailing_newline`, the normalized text ends with
/// exactly one line break.
pub proof fn law_normalize_single_final_newline(text: Seq<char>, o: NormalizeOptions)
    requires
        o.ensure_single_trailing_newline,
    ensures
        normalize_spec(text, o).len() > 0,
        normalize_spec(text, o).last() == '\n',
        normalize_spec(text, o).len() < 2 || normalize_spec(text, o)[normalize_spec(text, o).len() - 2] != '\n',
{
    reveal_strlit("\n");
    if text.len() > 0 {
        let lines = lines_of(text);
        let st = norm_fold(lines, o, lines.len() as int);
        let joined = join_with(flush(st.out, st.blanks, o.max_consecutive_blank_lines as nat), "\n"@);
        lemma_trim_newlines(joined);
        let t = trim_trailing_newlines(joined);
        assert(normalize_spec(text, o) == t + "\n"@);
        if t.len() > 0 {
            assert((t + "\n"@)[t.len() - 1] == t.last());
        }
    }
}

} // verus!
