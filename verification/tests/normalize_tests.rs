use mdtool::processing::normalize::{normalize, NormalizeOptions};

fn all_off() -> NormalizeOptions {
    NormalizeOptions {
        ensure_single_trailing_newline: true,
        trim_trailing_whitespace: false,
        max_consecutive_blank_lines: usize::MAX,
        preserve_fenced_code: true,
        normalize_heading_spacing: false,
    }
}

#[test]
fn heading_spacing_inserts_blank_before_heading() {
    let input = "some text\n## Heading";
    let opts = NormalizeOptions { normalize_heading_spacing: true, ..Default::default() };
    assert_eq!(normalize(input, &opts), "some text\n\n## Heading\n");
}

#[test]
fn heading_spacing_inserts_blank_after_heading() {
    let input = "## Heading\nsome text";
    let opts = NormalizeOptions { normalize_heading_spacing: true, ..Default::default() };
    assert_eq!(normalize(input, &opts), "## Heading\n\nsome text\n");
}

#[test]
fn heading_spacing_no_blank_before_first_line_heading() {
    let input = "# Title\nsome text";
    let opts = NormalizeOptions { normalize_heading_spacing: true, ..Default::default() };
    assert_eq!(normalize(input, &opts), "# Title\n\nsome text\n");
}

#[test]
fn heading_spacing_disabled() {
    let input = "some text\n## Heading\nmore text";
    let opts = NormalizeOptions { normalize_heading_spacing: false, ..Default::default() };
    assert_eq!(normalize(input, &opts), "some text\n## Heading\nmore text\n");
}

#[test]
fn heading_spacing_already_has_blank_lines() {
    let input = "some text\n\n## Heading\n\nmore text";
    let opts = NormalizeOptions { normalize_heading_spacing: true, ..Default::default() };
    assert_eq!(normalize(input, &opts), "some text\n\n## Heading\n\nmore text\n");
}

#[test]
fn heading_spacing_multiple_headings_in_sequence() {
    let input = "# Title\n## Sub\n### SubSub";
    let opts = NormalizeOptions { normalize_heading_spacing: true, ..Default::default() };
    assert_eq!(normalize(input, &opts), "# Title\n\n## Sub\n\n### SubSub\n");
}

#[test]
fn hashes_without_space_are_not_a_heading() {
    let opts = NormalizeOptions::default();
    assert_eq!(normalize("text\n#tag\nmore", &opts), "text\n#tag\nmore\n");
}

#[test]
fn collapse_blank_lines_basic() {
    let opts = NormalizeOptions { max_consecutive_blank_lines: 1, ..all_off() };
    assert_eq!(normalize("line1\n\n\n\nline2", &opts), "line1\n\nline2\n");
}

#[test]
fn collapse_blank_lines_zero() {
    let opts = NormalizeOptions { max_consecutive_blank_lines: 0, ..all_off() };
    assert_eq!(normalize("line1\n\n\n\nline2", &opts), "line1\nline2\n");
}

#[test]
fn collapse_blank_lines_two_allowed() {
    let opts = NormalizeOptions { max_consecutive_blank_lines: 2, ..all_off() };
    assert_eq!(normalize("line1\n\n\n\nline2", &opts), "line1\n\n\nline2\n");
}

#[test]
fn trim_trailing_basic() {
    let opts = NormalizeOptions { trim_trailing_whitespace: true, ..all_off() };
    assert_eq!(normalize("line1   \nline2\t", &opts), "line1\nline2\n");
}

#[test]
fn trim_trailing_disabled() {
    let opts = NormalizeOptions { trim_trailing_whitespace: false, ..all_off() };
    assert_eq!(normalize("line1   \nline2\t", &opts), "line1   \nline2\t\n");
}

#[test]
fn trim_trailing_preserves_fenced_code() {
    let input = "```rust\nline with spaces   \n```";
    let opts = NormalizeOptions { trim_trailing_whitespace: true, preserve_fenced_code: true, ..all_off() };
    assert_eq!(normalize(input, &opts), "```rust\nline with spaces   \n```\n");
}

#[test]
fn trim_trailing_inside_fence_when_not_preserving() {
    let input = "```rust\nline with spaces   \n```";
    let opts = NormalizeOptions { trim_trailing_whitespace: true, preserve_fenced_code: false, ..all_off() };
    assert_eq!(normalize(input, &opts), "```rust\nline with spaces\n```\n");
}

#[test]
fn trailing_newline_adds() {
    let opts = NormalizeOptions { ensure_single_trailing_newline: true, ..all_off() };
    assert_eq!(normalize("line1\nline2", &opts), "line1\nline2\n");
}

#[test]
fn trailing_newline_removes_extras() {
    let opts = NormalizeOptions { ensure_single_trailing_newline: true, ..all_off() };
    assert_eq!(normalize("line1\nline2\n\n\n", &opts), "line1\nline2\n");
}

#[test]
fn trailing_newline_disabled() {
    let opts = NormalizeOptions { ensure_single_trailing_newline: false, ..all_off() };
    assert_eq!(normalize("line1\nline2", &opts), "line1\nline2");
}

#[test]
fn fenced_code_preserved() {
    let input = "```rust\n### not a heading\n\n\n\nstill code\n```";
    let opts = NormalizeOptions { max_consecutive_blank_lines: usize::MAX, ..NormalizeOptions::default() };
    assert_eq!(normalize(input, &opts), "```rust\n### not a heading\n\n\n\nstill code\n```\n");
}

#[test]
fn fenced_code_collapses_blanks() {
    let input = "```rust\n### not a heading\n\n\n\nstill code\n```";
    let opts = NormalizeOptions::default();
    assert_eq!(normalize(input, &opts), "```rust\n### not a heading\n\nstill code\n```\n");
}

#[test]
fn tilde_fence_preserved() {
    let opts = NormalizeOptions::default();
    assert_eq!(normalize("~~~\ncode here\n~~~", &opts), "~~~\ncode here\n~~~\n");
}

#[test]
fn fence_with_info_string() {
    let opts = NormalizeOptions::default();
    assert_eq!(normalize("```rust,no-run\nlet x = 1;\n```", &opts), "```rust,no-run\nlet x = 1;\n```\n");
}

#[test]
fn blank_lines_before_fence_close_are_dropped() {
    let opts = NormalizeOptions::default();
    assert_eq!(normalize("```\ncode\n\n\n```", &opts), "```\ncode\n```\n");
}

#[test]
fn combined_all_options() {
    let input = "# Title   \n\n\n\n## Section\nSome text   \n```code\n  inside fence   \n```\nMore text";
    let opts = NormalizeOptions::default();
    assert_eq!(
        normalize(input, &opts),
        "# Title\n\n## Section\n\nSome text\n```code\n  inside fence   \n```\nMore text\n"
    );
}

#[test]
fn idempotent_default_options() {
    let input = "# Title   \n\n\n\n## Section\nSome text   \n\n\n\nMore text";
    let opts = NormalizeOptions::default();
    let first = normalize(input, &opts);
    let second = normalize(&first, &opts);
    assert_eq!(first, second);
}

#[test]
fn idempotent_various_inputs() {
    let inputs = vec![
        "",
        "hello",
        "# Title\n## Section\n",
        "```\ncode\n```\n",
        "line1\n\n\n\n\nline2",
        "line1   \nline2\t\t\n",
        "# H1\n\n## H2\n\n### H3\n",
    ];
    let opts = NormalizeOptions::default();
    for input in inputs {
        let first = normalize(input, &opts);
        let second = normalize(&first, &opts);
        assert_eq!(first, second, "not idempotent for input: {:?}", input);
    }
}

#[test]
fn empty_input_with_trailing_newline() {
    let opts = NormalizeOptions { ensure_single_trailing_newline: true, ..Default::default() };
    assert_eq!(normalize("", &opts), "\n");
}

#[test]
fn empty_input_without_trailing_newline() {
    let opts = NormalizeOptions { ensure_single_trailing_newline: false, ..Default::default() };
    assert_eq!(normalize("", &opts), "");
}

#[test]
fn output_ends_with_exactly_one_newline() {
    let opts = NormalizeOptions::default();
    for input in ["a", "a\n\n\n", "\n\n", "```\nx\n\n", "# A\n\n\n"] {
        let out = normalize(input, &opts);
        assert!(out.ends_with('\n'));
        assert!(!out.ends_with("\n\n"), "for {:?}: {:?}", input, out);
    }
}

#[test]
fn normalize_twice_equals_once_on_mixed_input() {
    let opts = NormalizeOptions::default();
    let input = "# A\ntext  \n\n\n## B\n```\n  code  \n\n\n```\n- item\t\n";
    let once = normalize(input, &opts);
    assert_eq!(normalize(&once, &opts), once);
    assert!(once.ends_with('\n') && !once.ends_with("\n\n"));
}

#[test]
fn normalize_is_idempotent_on_carriage_returns() {
    let opts = NormalizeOptions::default();
    for input in ["a\r\r", "\r\t", "a\r \r\n", "```\ncode\r\r\n```\r\n"] {
        let once = normalize(input, &opts);
        assert_eq!(normalize(&once, &opts), once, "input {:?}", input);
    }
    assert_eq!(normalize("a\r\r", &opts), "a\n");
}
