use vstd::prelude::*;

use crate::text::{
    append, chars_of, decimal, decimal_chars, find, first_occurrence, parse_usize, parse_usize_spec, string_of,
};

verus! {

/// Unique identifier for a block node in the document tree.
/// Assigned sequentially (0, 1, 2, ...) during parsing; stable within a
/// single parse.
#[derive(Debug, Clone, Copy, PartialEq, Eq, Structural, Hash, PartialOrd, Ord)]
pub struct BlockId(pub u32);

/// Half-open byte range [start, end) in source text.
#[derive(Debug, Clone, Copy, PartialEq, Eq, Structural)]
pub struct ByteRange {
    /// Inclusive start byte offset.
    pub start: usize,
    /// Exclusive end byte offset.
    pub end: usize,
}

impl ByteRange {
    /// Number of bytes covered; zero when `end` does not exceed `start`.
    pub fn length(&self) -> (r: usize)
        ensures
            r == (if self.end >= self.start { self.end - self.start } else { 0 }),
    {
        if self.end >= self.start {
            self.end - self.start
        } else {
            0
        }
    }
}

/// 1-based inclusive line range [start, end] in source text.
#[derive(Debug, Clone, Copy, PartialEq, Eq, Structural)]
pub struct LineRange {
    /// 1-based inclusive start line.
    pub start: usize,
    /// 1-based inclusive end line.
    pub end: usize,
}

impl LineRange {
    /// The number of lines in the range, as a mathematical value.
    pub open spec fn spec_line_count(self) -> int {
        if self.end >= self.start {
            self.end - self.start + 1
        } else {
            0
        }
    }

    /// Number of lines covered by the range; zero when it is empty.
    pub fn line_count(&self) -> (r: usize)
        requires
            self.spec_line_count() <= usize::MAX,
        ensures
            r == self.spec_line_count(),
    {
        if self.end >= self.start {
            self.end - self.start + 1
        } else {
            0
        }
    }

    /// Whether `line` lies within the range.
    pub fn contains(&self, line: usize) -> (r: bool)
        ensures
            r == (self.start <= line && line <= self.end),
    {
        self.start <= line && line <= self.end
    }
}

/// The compact text of a range: `n` for a single line, `a-b` otherwise.
pub open spec fn range_label(r: LineRange) -> Seq<char> {
    if r.start == r.end {
        decimal(r.start as nat)
    } else {
        decimal(r.start as nat) + "-"@ + decimal(r.end as nat)
    }
}

/// What reading a range from its compact text gives: the numbers before
/// and after the first `-`, or a single line when there is no `-`; `None`
/// when a number does not parse.
pub open spec fn parse_range_spec(s: Seq<char>) -> Option<LineRange> {
    match first_occurrence(s, "-"@) {
        Some(i) => match (parse_usize_spec(s.take(i)), parse_usize_spec(s.skip(i + 1))) {
            (Some(a), Some(b)) => Some(LineRange { start: a, end: b }),
            _ => None,
        },
        None => match parse_usize_spec(s) {
            Some(n) => Some(LineRange { start: n, end: n }),
            None => None,
        },
    }
}

impl LineRange {
    /// The compact text of the range: `"7"` for line 7 alone, `"3-9"` for
    /// lines 3 to 9.
    pub fn label(&self) -> (r: String)
        ensures
            r@ == range_label(*self),
    {
        let mut out = decimal_chars(self.start);
        if self.start != self.end {
            append(&mut out, chars_of("-").as_slice());
            append(&mut out, decimal_chars(self.end).as_slice());
        }
        string_of(out.as_slice())
    }

    /// Reads a range from its compact text.
    pub fn from_label(s: &str) -> (r: Option<LineRange>)
        ensures
            r == parse_range_spec(s@),
    {
        let cs = chars_of(s);
        let dash = chars_of("-");
        match find(cs.as_slice(), dash.as_slice()) {
            Some(i) => {
                proof {
                    reveal_strlit("-");
                }
                let a = parse_usize(vstd::slice::slice_subrange(cs.as_slice(), 0, i));
                let b = parse_usize(vstd::slice::slice_subrange(cs.as_slice(), i + 1, cs.len()));
                assert(cs@.subrange(0, i as int) =~= cs@.take(i as int));
                assert(cs@.subrange(i + 1, cs@.len() as int) =~= cs@.skip(i + 1));
                match (a, b) {
                    (Some(x), Some(y)) => Some(LineRange { start: x, end: y }),
                    _ => None,
                }
            },
            None => match parse_usize(cs.as_slice()) {
                Some(n) => Some(LineRange { start: n, end: n }),
                None => None,
            },
        }
    }
}

/// A range holds exactly the lines that it counts: a non-empty range
/// contains its endpoints, and an empty one counts no line.
pub proof fn law_line_range_count_matches_contents(r: LineRange, line: usize)
    ensures
        r.spec_line_count() > 0 <==> r.start <= r.end,
        (r.start <= line && line <= r.end) ==> r.spec_line_count() >= 1,
        r.spec_line_count() == 0 ==> !(r.start <= line && line <= r.end),
{
}

} // verus!
