use mdtool::infrastructure::normalizer::{compute_line_starts, normalize_line_endings, preprocess, strip_bom};

#[test]
fn normalize_crlf() {
    assert_eq!(normalize_line_endings("a\r\nb\r\n"), "a\nb\n");
}

#[test]
fn normalize_no_crlf() {
    assert_eq!(normalize_line_endings("a\nb\n"), "a\nb\n");
}

#[test]
fn normalize_lone_cr_kept() {
    assert_eq!(normalize_line_endings("a\rb\r\r\n"), "a\rb\r\n");
}

#[test]
fn strip_bom_present() {
    let with_bom = "\u{feff}hello";
    assert_eq!(strip_bom(with_bom), "hello");
}

#[test]
fn strip_bom_absent() {
    assert_eq!(strip_bom("hello"), "hello");
}

#[test]
fn line_offsets_basic() {
    let offsets = compute_line_starts("a\nb\nc");
    assert_eq!(offsets, vec![0, 2, 4]);
}

#[test]
fn line_offsets_empty() {
    let offsets = compute_line_starts("");
    assert_eq!(offsets, vec![0]);
}

#[test]
fn line_offsets_trailing_newline() {
    let offsets = compute_line_starts("a\nb\n");
    assert_eq!(offsets, vec![0, 2, 4]);
}

#[test]
fn preprocess_combined() {
    let input = "\u{feff}a\r\nb\r\n";
    assert_eq!(preprocess(input), "a\nb\n");
}

#[test]
fn preprocess_is_idempotent_on_example() {
    let once = preprocess("\u{feff}x\r\ny");
    assert_eq!(preprocess(&once), once);
}
