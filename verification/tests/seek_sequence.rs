use qaqh_workspace::apply_patch_engine::file_update::UpdateMode;
use qaqh_workspace::apply_patch_engine::seek_sequence::seek_sequence;

fn to_vec(strings: &[&str]) -> Vec<String> {
    strings.iter().map(ToString::to_string).collect()
}

#[test]
fn exact_match_finds_sequence() {
    let lines = to_vec(&["foo", "bar", "baz"]);
    let pattern = to_vec(&["bar", "baz"]);
    assert_eq!(
        seek_sequence(&lines, &pattern, 0, false, UpdateMode::NormalizeToLf),
        Some(1)
    );
}

#[test]
fn rstrip_match_ignores_trailing_whitespace() {
    let lines = to_vec(&["foo   ", "bar\t\t"]);
    let pattern = to_vec(&["foo", "bar"]);
    assert_eq!(
        seek_sequence(&lines, &pattern, 0, false, UpdateMode::NormalizeToLf),
        Some(0)
    );
}

#[test]
fn trim_match_ignores_leading_and_trailing_whitespace() {
    let lines = to_vec(&["    foo   ", "   bar\t"]);
    let pattern = to_vec(&["foo", "bar"]);
    assert_eq!(
        seek_sequence(&lines, &pattern, 0, false, UpdateMode::NormalizeToLf),
        Some(0)
    );
}

#[test]
fn pattern_longer_than_input_returns_none() {
    let lines = to_vec(&["just one line"]);
    let pattern = to_vec(&["too", "many", "lines"]);
    // Should not panic – must return None when pattern cannot possibly fit.
    assert_eq!(
        seek_sequence(&lines, &pattern, 0, false, UpdateMode::NormalizeToLf),
        None
    );
}

#[test]
fn unicode_normalised_match_accepts_typographic_dash() {
    // File contains U+2014 (em dash); patch was authored with ASCII '-'.
    let lines = to_vec(&["let x = a — b;"]);
    let pattern = to_vec(&["let x = a - b;"]);
    assert_eq!(
        seek_sequence(&lines, &pattern, 0, false, UpdateMode::NormalizeToLf),
        Some(0)
    );
}

#[test]
fn end_of_file_is_tried_first() {
    let lines = to_vec(&["a", "b", "a", "b"]);
    let pattern = to_vec(&["a", "b"]);
    assert_eq!(seek_sequence(&lines, &pattern, 0, true, UpdateMode::NormalizeToLf), Some(2));
    assert_eq!(seek_sequence(&lines, &pattern, 0, false, UpdateMode::NormalizeToLf), Some(0));
    assert_eq!(seek_sequence(&lines, &pattern, 1, false, UpdateMode::NormalizeToLf), Some(2));
}

#[test]
fn empty_pattern_is_found_where_the_search_starts() {
    let lines = to_vec(&["a"]);
    assert_eq!(seek_sequence(&lines, &[], 7, false, UpdateMode::NormalizeToLf), Some(7));
}
