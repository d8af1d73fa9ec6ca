use warp::git::{parse_working_tree_changes, GitWorkingTreeArea};
use warp::git_history_diff::{
    area_label_key, commit_source_label, diff_line_text, DiffHeader, DiffSourceLabel, format_hunk_range, hunk_header, short_commit_hash,
    DiffBody, DiffHunk, DiffLine, DiffLineType, GitHistoryDiffCommand, GitHistoryDiffSource,
    GitHistoryDiffView, LoadedDiff,
};

fn generation(commands: &[GitHistoryDiffCommand]) -> u64 {
    match commands.last() {
        Some(GitHistoryDiffCommand::LoadCommitDiff { generation, .. }) => *generation,
        Some(GitHistoryDiffCommand::LoadWorkingTreeDiff { generation, .. }) => *generation,
        _ => panic!("expected a diff request"),
    }
}

fn hunk() -> DiffHunk {
    DiffHunk {
        old_start_line: 3,
        old_line_count: 1,
        new_start_line: 3,
        new_line_count: 2,
        lines: vec![DiffLine {
            line_type: DiffLineType::Add,
            old_line_number: None,
            new_line_number: Some(4),
            text: "let x = 1;".into(),
        }],
    }
}

fn loaded(hunks: Vec<DiffHunk>, is_binary: bool) -> LoadedDiff {
    LoadedDiff { hunks, is_binary, is_too_large: false, has_hidden_bidi_chars: false }
}

#[test]
fn hunk_ranges() {
    assert_eq!(format_hunk_range(12, 1), "12");
    assert_eq!(format_hunk_range(12, 3), "12,3");
    assert_eq!(format_hunk_range(0, 0), "0,0");
    assert_eq!(hunk_header(&hunk()), "@@ -3 +3,2 @@");
}

#[test]
fn diff_lines_and_labels() {
    assert_eq!(diff_line_text(&hunk().lines[0]), "          4 + let x = 1;");
    let context = DiffLine {
        line_type: DiffLineType::Context,
        old_line_number: Some(123456),
        new_line_number: Some(7),
        text: "x".into(),
    };
    assert_eq!(diff_line_text(&context), "123456     7   x");
    assert_eq!(short_commit_hash("0123456789abcdef"), "01234567");
    assert_eq!(short_commit_hash("abc"), "abc");
    assert_eq!(commit_source_label("0123456789", "Fix bug"), "01234567 · Fix bug");
}

#[test]
fn opened_commit_diff_loads_and_shows() {
    let mut view = GitHistoryDiffView::new();
    assert_eq!(view.body(), DiffBody::EmptySelection);
    assert!(view.selection().is_none());
    let commands = view.open("/repo".into(), "abc".into(), "Fix".into(), "a.rs".into());
    assert!(matches!(
        commands.last(),
        Some(GitHistoryDiffCommand::LoadCommitDiff { commit_hash, file_path, .. })
            if commit_hash == "abc" && file_path == "a.rs"
    ));
    assert_eq!(view.body(), DiffBody::Loading { file_path: "a.rs".into() });
    let g = generation(&commands);
    assert_eq!(view.diff_loaded(g, Ok(loaded(vec![hunk()], false))).len(), 2);
    assert_eq!(view.body(), DiffBody::Hunks);
    assert_eq!(view.hunks().len(), 1);
    assert_eq!(view.selection().unwrap().file_path, "a.rs");
    assert!(!view.shows_hidden_bidi_warning());
}

#[test]
fn superseded_diff_result_is_dropped() {
    let mut view = GitHistoryDiffView::new();
    let first = generation(&view.open("/r".into(), "c1".into(), "s".into(), "a.rs".into()));
    let change = parse_working_tree_changes("? b.rs\0").unstaged[0].clone();
    let commands = view.open_working_tree("/r".into(), GitWorkingTreeArea::Unstaged, change);
    assert!(matches!(commands[0], GitHistoryDiffCommand::AbortRequest));
    let second = generation(&commands);
    assert!(view.diff_loaded(first, Ok(loaded(vec![hunk()], false))).is_empty());
    assert_eq!(view.body(), DiffBody::Loading { file_path: "b.rs".into() });
    view.diff_loaded(second, Err("fatal: bad revision".into()));
    assert_eq!(
        view.body(),
        DiffBody::LoadError { message: "fatal: bad revision".into() }
    );
    assert!(matches!(
        view.selection().unwrap().source,
        GitHistoryDiffSource::WorkingTree { area: GitWorkingTreeArea::Unstaged, .. }
    ));
}

#[test]
fn clear_drops_pending_result() {
    let mut view = GitHistoryDiffView::new();
    let g = generation(&view.open("/r".into(), "c".into(), "s".into(), "a.rs".into()));
    let commands = view.clear();
    assert!(matches!(commands[0], GitHistoryDiffCommand::AbortRequest));
    assert!(view.diff_loaded(g, Ok(loaded(vec![], false))).is_empty());
    assert_eq!(view.body(), DiffBody::EmptySelection);
    assert!(view.clear().len() == 2);
}

#[test]
fn binary_and_empty_diffs() {
    let mut view = GitHistoryDiffView::new();
    let g = generation(&view.open("/r".into(), "c".into(), "s".into(), "img.png".into()));
    view.diff_loaded(g, Ok(loaded(vec![], true)));
    assert_eq!(view.body(), DiffBody::Binary);
    let g = generation(&view.open("/r".into(), "c".into(), "s".into(), "a.rs".into()));
    view.diff_loaded(
        g,
        Ok(LoadedDiff { hunks: vec![], is_binary: false, is_too_large: false, has_hidden_bidi_chars: true }),
    );
    assert_eq!(view.body(), DiffBody::NoTextChanges);
    assert!(view.shows_hidden_bidi_warning());
    let g = generation(&view.open("/r".into(), "c".into(), "s".into(), "big.rs".into()));
    view.diff_loaded(
        g,
        Ok(LoadedDiff { hunks: vec![], is_binary: false, is_too_large: true, has_hidden_bidi_chars: false }),
    );
    assert_eq!(view.body(), DiffBody::TooLarge);
    assert!(view.shutdown().is_empty());
}

#[test]
fn binary_or_large_diff_keeps_no_hunks() {
    let mut view = GitHistoryDiffView::new();
    let g = generation(&view.open("/r".into(), "c".into(), "s".into(), "img.png".into()));
    view.diff_loaded(g, Ok(loaded(vec![hunk()], true)));
    assert_eq!(view.body(), DiffBody::Binary);
    assert!(view.hunks().is_empty());
    let g = generation(&view.open("/r".into(), "c".into(), "s".into(), "big.rs".into()));
    view.diff_loaded(
        g,
        Ok(LoadedDiff { hunks: vec![hunk()], is_binary: false, is_too_large: true, has_hidden_bidi_chars: false }),
    );
    assert!(view.hunks().is_empty());
    let g = generation(&view.open("/r".into(), "c".into(), "s".into(), "a.rs".into()));
    view.diff_loaded(g, Ok(loaded(vec![hunk()], false)));
    assert_eq!(view.hunks(), &[hunk()][..]);
}

#[test]
fn diff_header_names_title_source_and_path() {
    let mut view = GitHistoryDiffView::new();
    assert_eq!(view.header(), None);
    view.open("/r".into(), "0123456789".into(), "Fix bug".into(), "a.rs".into());
    assert_eq!(
        view.header(),
        Some(DiffHeader {
            title_key: "git-history-diff-title",
            source_label: DiffSourceLabel::Commit("01234567 · Fix bug".into()),
            file_path: "a.rs".into(),
        })
    );
    let change = parse_working_tree_changes("? b.rs\0").unstaged[0].clone();
    view.open_working_tree("/r".into(), GitWorkingTreeArea::Staged, change);
    assert_eq!(
        view.header(),
        Some(DiffHeader {
            title_key: "git-working-tree-diff-title",
            source_label: DiffSourceLabel::AreaKey("git-working-tree-staged"),
            file_path: "b.rs".into(),
        })
    );
    assert_eq!(area_label_key(GitWorkingTreeArea::Unstaged), "git-working-tree-unstaged");
    view.clear();
    assert_eq!(view.header(), None);
}
