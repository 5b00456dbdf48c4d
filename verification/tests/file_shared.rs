use qaqh_workspace::file_shared::{
    content_hash, diff_stats_between, is_binary_read_error, normalize_newlines, to_crlf, unified_diff,
    verify_expected_hash,
};

#[test]
fn diff_stats_between_counts_changes_and_first_line() {
    let before = "a\nb\nc\nd\ne\n";
    let after = "a\nb\nX\nY\ne\n";
    let (added, removed, first_line) = diff_stats_between(before, after);
    assert_eq!((added, removed, first_line), (2, 2, 3));
}

#[test]
fn diff_stats_between_handles_insert_and_delete() {
    let before = "a\nb\nc\n";
    let after = "a\nb\nB2\nc\nd\n";
    let (added, removed, first_line) = diff_stats_between(before, after);
    assert_eq!((added, removed, first_line), (2, 0, 3));
}

#[test]
fn diff_stats_between_identical_content_is_zero() {
    let (added, removed, first_line) = diff_stats_between("x\ny\n", "x\ny\n");
    assert_eq!((added, removed, first_line), (0, 0, 1));
}

#[test]
fn newlines_have_one_form() {
    assert_eq!(normalize_newlines("a\r\nb\rc\n"), ("a\nb\nc\n".to_string(), true));
    assert_eq!(normalize_newlines("a\n"), ("a\n".to_string(), false));
    assert_eq!(to_crlf("a\nb\n"), "a\r\nb\r\n");
}

#[test]
fn fingerprints_are_sha256_prefixes() {
    let h = content_hash("hello");
    assert!("2cf24dba5fb0a30e26e83b2ac5b9e29e1b161e5c1fa7425e73043362938b9824".starts_with(&h));
    assert!(!h.is_empty());
    assert!(verify_expected_hash("hello", Some(&h)).is_ok());
    assert!(verify_expected_hash("hello", None).is_ok());
    assert_eq!(verify_expected_hash("hello", Some("00")).unwrap_err().actual, h);
}

#[test]
fn diffs_have_headers_and_context() {
    assert_eq!(unified_diff("a\n", "a\n", "f"), "");
    assert_eq!(unified_diff("a\nb\n", "a\nc\n", "f"), "--- a/f\n+++ b/f\n@@ -1,2 +1,2 @@\n a\n-b\n+c\n");
}

#[test]
fn read_errors_of_binaries_are_known() {
    assert!(is_binary_read_error("stream did not contain valid UTF-8"));
    assert!(!is_binary_read_error("Permission denied"));
}

#[test]
fn diff_stats_between_ends_lines_at_any_newline() {
    assert_eq!(diff_stats_between("a\rb\r", "a\rc\r"), (1, 1, 2));
    assert_eq!(diff_stats_between("a\r\nb\r\n", "a\r\nb\r\nc"), (1, 0, 3));
    assert_eq!(diff_stats_between("", "x"), (1, 0, 1));
}
