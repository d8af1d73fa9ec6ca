use warp::text::same_path_components;
use warp::diff_state::{check_for_hidden_bidi_chars, is_binary_patch, parse_diff_hunks};
use warp::git::GitHistoryFileDiff;
use warp::git_history_diff::{DiffLine, DiffLineType, LoadedDiff};

const PATCH: &str = "diff --git a/a.rs b/a.rs\nindex 1..2 100644\n--- a/a.rs\n+++ b/a.rs\n@@ -3,3 +3,4 @@ fn main() {\n one\n-two\n+deux\n+trois\n three\n\\ No newline at end of file\n@@ -20 +21,0 @@\n-gone\n";

fn line(t: DiffLineType, old: Option<usize>, new: Option<usize>, text: &str) -> DiffLine {
    DiffLine { line_type: t, old_line_number: old, new_line_number: new, text: text.into() }
}

#[test]
fn hunks_are_parsed_with_numbered_lines() {
    let hunks = parse_diff_hunks(PATCH).unwrap();
    assert_eq!(hunks.len(), 2);
    assert_eq!(
        (hunks[0].old_start_line, hunks[0].old_line_count, hunks[0].new_start_line, hunks[0].new_line_count),
        (3, 3, 3, 4)
    );
    assert_eq!(
        hunks[0].lines,
        vec![
            line(DiffLineType::Context, Some(3), Some(3), "one"),
            line(DiffLineType::Delete, Some(4), None, "two"),
            line(DiffLineType::Add, None, Some(4), "deux"),
            line(DiffLineType::Add, None, Some(5), "trois"),
            line(DiffLineType::Context, Some(5), Some(6), "three"),
        ]
    );
    assert_eq!(
        (hunks[1].old_start_line, hunks[1].old_line_count, hunks[1].new_start_line, hunks[1].new_line_count),
        (20, 1, 21, 0)
    );
    assert_eq!(hunks[1].lines, vec![line(DiffLineType::Delete, Some(20), None, "gone")]);
}

#[test]
fn patch_without_hunks_has_none() {
    assert!(parse_diff_hunks("").unwrap().is_empty());
    assert!(parse_diff_hunks("diff --git a/x b/x\nnew file mode 100644\n").unwrap().is_empty());
}

#[test]
fn malformed_hunk_header_is_an_error() {
    assert_eq!(
        parse_diff_hunks("@@ -a +1 @@\n x\n").unwrap_err(),
        "invalid hunk header: @@ -a +1 @@"
    );
    assert!(parse_diff_hunks("@@ -1 +1\n").is_err());
    assert!(parse_diff_hunks("@@ -99999999999999999999999 +1 @@\n").is_err());
}

#[test]
fn line_numbers_past_usize_are_an_error() {
    let patch = format!("@@ -{} +1 @@\n x\n", usize::MAX);
    assert_eq!(parse_diff_hunks(&patch).unwrap_err(), "line number out of range");
}

#[test]
fn hidden_bidi_controls_are_found() {
    assert!(!check_for_hidden_bidi_chars(PATCH));
    assert!(check_for_hidden_bidi_chars("+let s = \"\u{202E}abc\";"));
    assert!(check_for_hidden_bidi_chars("\u{2066}"));
    assert!(check_for_hidden_bidi_chars("x\u{2069}"));
    assert!(!check_for_hidden_bidi_chars("\u{2065}\u{202F}\u{2029}"));
}

#[test]
fn binary_patches_are_recognised() {
    assert!(is_binary_patch("diff --git a/i.png b/i.png\nBinary files a/i.png and b/i.png differ\n"));
    assert!(!is_binary_patch(PATCH));
    assert!(!is_binary_patch(" Binary files"));
}

#[test]
fn loaded_diff_from_patch() {
    let d = LoadedDiff::from_patch(PATCH, false, false).unwrap();
    assert_eq!(d.hunks.len(), 2);
    assert!(!d.has_hidden_bidi_chars);
    let d = LoadedDiff::from_patch("@@ -1 +1 @@\n+\u{202A}\n", true, false).unwrap();
    assert!(d.hunks.is_empty());
    assert!(d.is_binary);
    assert!(d.has_hidden_bidi_chars);
    let d = LoadedDiff::from_patch("@@ nonsense\n", false, true).unwrap();
    assert!(d.hunks.is_empty());
    assert!(d.is_too_large);
    assert!(LoadedDiff::from_patch("@@ nonsense\n", false, false).is_err());
}

#[test]
fn loaded_diff_from_file_diff() {
    let diff = GitHistoryFileDiff { patch: PATCH.into(), is_binary: false, is_too_large: false };
    let d = LoadedDiff::from_file_diff(&diff).unwrap();
    assert_eq!(d.hunks, parse_diff_hunks(PATCH).unwrap());
    let big = GitHistoryFileDiff { patch: PATCH.into(), is_binary: false, is_too_large: true };
    assert!(LoadedDiff::from_file_diff(&big).unwrap().hunks.is_empty());
}

#[test]
fn parsed_lines_run_on_from_each_start() {
    let hunks = parse_diff_hunks("@@ -7,2 +9,3 @@
-a
 b
+c
+d
").unwrap();
    let olds: Vec<Option<usize>> = hunks[0].lines.iter().map(|l| l.old_line_number).collect();
    let news: Vec<Option<usize>> = hunks[0].lines.iter().map(|l| l.new_line_number).collect();
    assert_eq!(olds, vec![Some(7), Some(8), None, None]);
    assert_eq!(news, vec![None, Some(9), Some(10), Some(11)]);
}

#[test]
fn paths_compare_by_component() {
    assert!(same_path_components("/a/b/", "/a/b"));
    assert!(same_path_components("/a//b", "/a/./b"));
    assert!(same_path_components("./a", "./a/"));
    assert!(!same_path_components("./a", "a"));
    assert!(!same_path_components("/a", "a"));
    assert!(!same_path_components("/a/../b", "/b"));
    assert!(!same_path_components("", "."));
}
