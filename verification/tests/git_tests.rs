use warp::git::{
    commit_file_diff_paths, parse_commit_files, parse_commit_history, parse_working_tree_changes,
    FileChangeEntry, commit_diff_args, is_no_index_diff, working_tree_diff_args, GitWorkingTreeArea,
    GitWorkingTreeChangeStatus, GitWorkingTreeChanges,
};

#[test]
fn parses_commit_history_records() {
    let output =
        "abc\u{0}abc1234\u{0}Test User\u{0}2026-08-25T12:34:56+08:00\u{0}Add history\u{1}\n";
    let commits = parse_commit_history(output);

    assert_eq!(commits.len(), 1);
    assert_eq!(commits[0].hash, "abc");
    assert_eq!(commits[0].short_hash, "abc1234");
    assert_eq!(commits[0].author, "Test User");
    assert_eq!(commits[0].subject, "Add history");
}

#[test]
fn parses_staged_unstaged_untracked_and_renamed_changes() {
    let output = [
        "1 M. N... 100644 100644 100644 a b staged.txt\0",
        "1 .M N... 100644 100644 100644 a b unstaged.txt\0",
        "1 MM N... 100644 100644 100644 a b both.txt\0",
        "2 R. N... 100644 100644 100644 a b R100 new name.txt\0",
        "old name.txt\0",
        "u UU N... 100644 100644 100644 100644 a b c conflict.txt\0",
        "? untracked.txt\0",
    ]
    .concat();

    let changes = parse_working_tree_changes(&output);

    assert_eq!(changes.staged.len(), 3);
    assert_eq!(changes.unstaged.len(), 4);
    assert_eq!(changes.staged[0].path, "both.txt");
    assert_eq!(changes.unstaged[0].path, "both.txt");
    assert_eq!(
        changes.staged[1].status,
        GitWorkingTreeChangeStatus::Renamed {
            old_path: "old name.txt".to_string(),
        }
    );
    assert_eq!(
        changes.unstaged[1].status,
        GitWorkingTreeChangeStatus::Conflicted
    );
    assert_eq!(
        changes.unstaged[3].status,
        GitWorkingTreeChangeStatus::Untracked
    );
}

#[test]
fn rename_display_paths_expand_to_both_pathspecs() {
    assert_eq!(
        commit_file_diff_paths("src/{old_name.rs => new_name.rs}"),
        vec!["src/old_name.rs".to_owned(), "src/new_name.rs".to_owned()]
    );
    assert_eq!(
        commit_file_diff_paths("old_name.rs => new_name.rs"),
        vec!["old_name.rs".to_owned(), "new_name.rs".to_owned()]
    );
}

#[test]
fn changed_file_count_counts_unique_paths() {
    let porcelain = [
        "1 MM N... 100644 100644 100644 0 0 src/main.rs\0",
        "? untracked.txt\0",
        "1 A. N... 100644 100644 100644 0 0 added.rs\0",
    ]
    .concat();
    let changes = parse_working_tree_changes(&porcelain);
    assert_eq!(changes.staged.len(), 2, "MM staged + A. staged");
    assert_eq!(changes.unstaged.len(), 2, "MM unstaged + untracked");
    assert_eq!(changes.changed_file_count(), 3);
}

#[test]
fn changed_file_count_is_zero_for_empty_tree() {
    assert_eq!(parse_working_tree_changes("").changed_file_count(), 0);
}

#[test]
fn commit_history_skips_blank_and_malformed_records() {
    let output = [
        "h1\u{0}s1\u{0}A\u{0}d1\u{0}first\u{1}\n",
        "\n\u{1}\n",
        "only\u{0}three\u{0}fields\u{1}\n",
        "h2\u{0}s2\u{0}B\u{0}d2\u{0}second\u{1}\n",
    ]
    .concat();
    let commits = parse_commit_history(&output);
    assert_eq!(commits.len(), 2);
    assert_eq!(commits[0].hash, "h1");
    assert_eq!(commits[0].committed_at, "d1");
    assert_eq!(commits[1].author, "B");
    assert_eq!(commits[1].subject, "second");
    assert!(parse_commit_history("").is_empty());
}

#[test]
fn staged_changes_are_sorted_by_path_with_statuses() {
    let output = [
        "1 D. N... 100644 000000 000000 a b zeta.rs\0",
        "1 A. N... 000000 100644 100644 a b alpha.rs\0",
        "1 .T N... 100644 100644 120000 a b link\0",
        "2 C. N... 100644 100644 100644 a b C75 copy.rs\0",
        "orig.rs\0",
        "# branch.head main\0",
        "! ignored.txt\0",
    ]
    .concat();
    let changes = parse_working_tree_changes(&output);
    let staged: Vec<&str> = changes.staged.iter().map(|c| c.path.as_str()).collect();
    assert_eq!(staged, vec!["alpha.rs", "copy.rs", "zeta.rs"]);
    assert_eq!(changes.staged[0].status, GitWorkingTreeChangeStatus::Added);
    assert_eq!(
        changes.staged[1].status,
        GitWorkingTreeChangeStatus::Copied {
            old_path: "orig.rs".to_string()
        }
    );
    assert_eq!(changes.staged[2].status, GitWorkingTreeChangeStatus::Deleted);
    assert_eq!(changes.unstaged.len(), 1);
    assert_eq!(changes.unstaged[0].path, "link");
    assert_eq!(changes.unstaged[0].status, GitWorkingTreeChangeStatus::Modified);
}

#[test]
fn paths_with_spaces_are_kept_whole() {
    let changes =
        parse_working_tree_changes("1 .M N... 100644 100644 100644 a b dir/my file.txt\0");
    assert_eq!(changes.unstaged[0].path, "dir/my file.txt");
    assert_eq!(changes.changed_file_count(), 1);
}

#[test]
fn plain_paths_expand_to_themselves() {
    assert_eq!(commit_file_diff_paths("src/lib.rs"), vec!["src/lib.rs".to_owned()]);
    assert_eq!(
        commit_file_diff_paths("a/{b => c}/d.rs"),
        vec!["a/b/d.rs".to_owned(), "a/c/d.rs".to_owned()]
    );
}

#[test]
fn default_changes_are_empty() {
    let changes = GitWorkingTreeChanges::default();
    assert!(changes.staged.is_empty() && changes.unstaged.is_empty());
    assert_eq!(changes.changed_file_count(), 0);
}

#[test]
fn history_page_keeps_limit_and_reports_more() {
    let output = [
        "h2\u{0}s2\u{0}A\u{0}d\u{0}second\u{1}\n",
        "h1\u{0}s1\u{0}A\u{0}d\u{0}initial\u{1}\n",
    ]
    .concat();
    let first_page = warp::git::history_page(parse_commit_history(&output), 1);
    assert_eq!(first_page.commits.len(), 1);
    assert_eq!(first_page.commits[0].subject, "second");
    assert!(first_page.has_more);

    let last_page = warp::git::history_page(parse_commit_history(&output), 2);
    assert_eq!(last_page.commits.len(), 2);
    assert!(!last_page.has_more);
}

#[test]
fn unsorted_entries_come_out_sorted_with_equal_paths_in_entry_order() {
    let output = [
        "1 .M N... 100644 100644 100644 a b b.rs\0",
        "? a.rs\0",
        "1 .D N... 100644 100644 000000 a b B.rs\0",
        "? b.rs\0",
    ]
    .concat();
    let changes = parse_working_tree_changes(&output);
    let paths: Vec<&str> = changes.unstaged.iter().map(|c| c.path.as_str()).collect();
    assert_eq!(paths, vec!["B.rs", "a.rs", "b.rs", "b.rs"]);
    assert_eq!(changes.unstaged[2].status, GitWorkingTreeChangeStatus::Modified);
    assert_eq!(changes.unstaged[3].status, GitWorkingTreeChangeStatus::Untracked);
    assert_eq!(changes.changed_file_count(), 3);
}

#[test]
fn parses_commit_file_counts() {
    let output = "3\t1\tsrc/a.rs\n-\t-\timg.png\n10\t0\tsrc/{old => new}/b.rs\n\nbad line\nx\t1\tc.rs\n";
    let f = |path: &str, additions: usize, deletions: usize| FileChangeEntry {
        path: path.into(),
        additions,
        deletions,
    };
    assert_eq!(
        parse_commit_files(output),
        vec![f("src/a.rs", 3, 1), f("img.png", 0, 0), f("src/{old => new}/b.rs", 10, 0)]
    );
    assert!(parse_commit_files("").is_empty());
}

#[test]
fn diff_arguments_follow_side_and_status() {
    let changes = parse_working_tree_changes(
        "2 R. N... 100644 100644 100644 a a R100 new.rs\0old.rs\0? u.txt\01 .M N... 100644 100644 100644 a b m.rs\0",
    );
    let renamed = &changes.staged[0];
    assert_eq!(
        working_tree_diff_args(GitWorkingTreeArea::Staged, renamed),
        vec!["diff", "--cached", "--", "old.rs", "new.rs"]
    );
    let untracked = changes.unstaged.iter().find(|c| c.path == "u.txt").unwrap();
    assert!(is_no_index_diff(untracked));
    assert_eq!(
        working_tree_diff_args(GitWorkingTreeArea::Unstaged, untracked),
        vec!["diff", "--no-index", "--", "/dev/null", "u.txt"]
    );
    let modified = changes.unstaged.iter().find(|c| c.path == "m.rs").unwrap();
    assert!(!is_no_index_diff(modified));
    assert_eq!(working_tree_diff_args(GitWorkingTreeArea::Unstaged, modified), vec!["diff", "--", "m.rs"]);
    assert_eq!(
        commit_diff_args("abc", "src/{a => b}/c.rs"),
        vec!["show", "--format=", "-m", "--first-parent", "abc", "--", "src/a/c.rs", "src/b/c.rs"]
    );
}
