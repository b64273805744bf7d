use goose_cli_tui::history::{parse_unified_diff, DiffLine};

fn line_text(l: &DiffLine) -> (&'static str, String) {
    match l {
        DiffLine::Context(s) => ("ctx", s.clone()),
        DiffLine::Add(s) => ("add", s.clone()),
        DiffLine::Remove(s) => ("rem", s.clone()),
    }
}

#[test]
fn diff_with_crlf_line_endings() {
    let diff = "--- a/x.rs\r\n+++ b/x.rs\r\n@@ -1 +1 @@\r\n-a\r\n+b\r\n";
    let (path, hunks) = parse_unified_diff(diff).expect("should parse");
    assert_eq!(path, "x.rs");
    assert_eq!(hunks.len(), 1);
    assert_eq!(hunks[0].old_start, 1);
    assert_eq!(hunks[0].old_count, 1);
    assert_eq!(hunks[0].new_start, 1);
    assert_eq!(hunks[0].new_count, 1);
    assert_eq!(line_text(&hunks[0].lines[0]), ("rem", "a".to_string()));
    assert_eq!(line_text(&hunks[0].lines[1]), ("add", "b".to_string()));
}

#[test]
fn diff_path_from_plus_line_when_minus_missing() {
    let diff = "+++ b/y.rs\n@@ -1,1 +1,1 @@\n+new\n";
    let (path, hunks) = parse_unified_diff(diff).expect("should parse");
    assert_eq!(path, "y.rs");
    assert_eq!(hunks.len(), 1);
}

#[test]
fn diff_minus_path_wins_over_plus_path() {
    let diff = "--- a/old.rs\n+++ b/new.rs\n@@ -1 +1 @@\n x\n";
    let (path, _) = parse_unified_diff(diff).expect("should parse");
    assert_eq!(path, "old.rs");
}

#[test]
fn diff_without_hunk_lines_is_none() {
    assert!(parse_unified_diff("--- a/z\n+++ b/z\n@@ -1,2 +1,2 @@\n").is_none());
}

#[test]
fn diff_without_path_is_none() {
    assert!(parse_unified_diff("@@ -1 +1 @@\n+x\n").is_none());
}

#[test]
fn plain_text_is_not_a_diff() {
    assert!(parse_unified_diff("hello world").is_none());
    assert!(parse_unified_diff("").is_none());
}

#[test]
fn diff_header_without_ranges_keeps_previous_numbers() {
    let diff = "--- a/f\n@@ -3,4 +5,6 @@\n x\n@@ junk\n y\n";
    let (_, hunks) = parse_unified_diff(diff).expect("should parse");
    assert_eq!(hunks.len(), 2);
    for h in &hunks {
        assert_eq!((h.old_start, h.old_count, h.new_start, h.new_count), (3, 4, 5, 6));
    }
    assert_eq!(line_text(&hunks[0].lines[0]), ("ctx", " x".to_string()));
    assert_eq!(line_text(&hunks[1].lines[0]), ("ctx", " y".to_string()));
}

#[test]
fn diff_header_number_that_overflows_is_skipped() {
    let diff = "--- a/f\n@@ -99999999999,2 +7 @@\n+x\n";
    let (_, hunks) = parse_unified_diff(diff).expect("should parse");
    assert_eq!(hunks[0].old_start, 2);
    assert_eq!(hunks[0].old_count, 1);
    assert_eq!(hunks[0].new_start, 7);
    assert_eq!(hunks[0].new_count, 1);
}

#[test]
fn diff_lines_before_first_hunk_are_ignored() {
    let diff = "--- a/f\nnoise\n@@ -1 +1 @@\n+x";
    let (_, hunks) = parse_unified_diff(diff).expect("should parse");
    assert_eq!(hunks.len(), 1);
    assert_eq!(hunks[0].lines.len(), 1);
    assert_eq!(line_text(&hunks[0].lines[0]), ("add", "x".to_string()));
}

#[test]
fn diff_triple_markers_inside_hunk() {
    let diff = "--- a/f\n@@ -1 +1 @@\n+++x\n---y\n+++ b/other\n-z\n";
    let (path, hunks) = parse_unified_diff(diff).expect("should parse");
    assert_eq!(path, "f");
    let lines: Vec<_> = hunks[0].lines.iter().map(line_text).collect();
    assert_eq!(
        lines,
        vec![
            ("ctx", "+++x".to_string()),
            ("ctx", "---y".to_string()),
            ("rem", "z".to_string()),
        ]
    );
}

#[test]
fn diff_empty_hunk_is_dropped_between_hunks() {
    let diff = "--- a/f\n@@ -1 +1 @@\n@@ -2 +2 @@\n+k\n";
    let (_, hunks) = parse_unified_diff(diff).expect("should parse");
    assert_eq!(hunks.len(), 1);
    assert_eq!(hunks[0].old_start, 2);
}
