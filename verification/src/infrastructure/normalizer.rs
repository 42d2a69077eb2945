use vstd::prelude::*;

use crate::text::{chars_of, string_of};

verus! {

broadcast use vstd::seq_lib::group_seq_properties;

/// A text with every `\r\n` pair, scanned from the left, replaced by `\n`.
pub open spec fn replace_crlf(s: Seq<char>) -> Seq<char>
    decreases s.len(),
{
    if s.len() == 0 {
        s
    } else if s.len() >= 2 && s[0] == '\r' && s[1] == '\n' {
        seq!['\n'] + replace_crlf(s.skip(2))
    } else {
        seq![s[0]] + replace_crlf(s.skip(1))
    }
}

/// A text without its leading byte order mark, if it had one.
pub open spec fn strip_bom_spec(s: Seq<char>) -> Seq<char> {
    if s.len() > 0 && s[0] == '\u{feff}' {
        s.skip(1)
    } else {
        s
    }
}

/// Pre-parse normalization of a text: BOM removed, then CRLF turned into LF.
pub open spec fn preprocess_spec(s: Seq<char>) -> Seq<char> {
    replace_crlf(strip_bom_spec(s))
}

/// `replace_crlf` on characters.
pub fn replace_crlf_chars(s: &[char]) -> (r: Vec<char>)
    ensures
        r@ == replace_crlf(s@),
{
    let mut out: Vec<char> = Vec::new();
    let mut i: usize = 0;
    while i < s.len()
        invariant
            i <= s.len(),
            replace_crlf(s@) == out@ + replace_crlf(s@.skip(i as int)),
        decreases s.len() - i,
    {
        let ghost rest = s@.skip(i as int);
        if i + 1 < s.len() && s[i] == '\r' && s[i + 1] == '\n' {
            assert(rest.skip(2) == s@.skip(i + 2));
            out.push('\n');
            i = i + 2;
        } else {
            assert(rest.skip(1) == s@.skip(i + 1));
            out.push(s[i]);
            i = i + 1;
        }
    }
    assert(s@.skip(s.len() as int).len() == 0);
    out
}

/// Normalize line endings: CRLF -> LF.
pub fn normalize_line_endings(text: &str) -> (r: String)
    ensures
        r@ == replace_crlf(text@),
{
    let cs = chars_of(text);
    let out = replace_crlf_chars(cs.as_slice());
    string_of(out.as_slice())
}

/// Strip the UTF-8 byte order mark (U+FEFF) from the start of a text.
pub fn strip_bom(text: &str) -> (r: &str)
    ensures
        r@ == strip_bom_spec(text@),
{
    let n = text.unicode_len();
    if n > 0 && text.get_char(0) == '\u{feff}' {
        let r = text.substring_char(1, n);
        assert(r@ =~= text@.skip(1));
        r
    } else {
        text
    }
}

/// Compute byte offsets of the start of each line in the text.
/// Index i gives the byte offset of line i+1; always starts with 0.
pub fn compute_line_starts(text: &str) -> (r: Vec<usize>)
    ensures
        r@ == crate::domain::document::line_starts_of(vstd::utf8::encode_utf8(text@)),
{
    crate::domain::document::compute_line_starts(text)
}

/// Pre-parse normalization: strip BOM, normalize line endings.
pub fn preprocess(text: &str) -> (r: String)
    ensures
        r@ == preprocess_spec(text@),
{
    let t = strip_bom(text);
    normalize_line_endings(t)
}

} // verus!
