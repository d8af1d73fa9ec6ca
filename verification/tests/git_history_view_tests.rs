use warp::git::{
    parse_working_tree_changes, FileChangeEntry, GitHistoryCommit, GitHistoryPage,
    GitWorkingTreeArea, GitWorkingTreeChangeStatus,
};
use warp::git_history::{GitHistoryCommand, GitHistoryModel};
use warp::git_history_view::{
    commit_metadata_line, file_stats_line, section_header_text, working_tree_sections,
    working_tree_status_label, GitHistoryAction, SidebarBody,
    GitHistoryEvent, GitHistoryView, GitHistoryViewCommand, GitSidebarMode, ModeToggleLabel,
};

fn attached_view() -> GitHistoryView {
    let mut view = GitHistoryView::new();
    let commands = view.set_repository(Some("/repo".to_string()));
    assert!(matches!(
        commands.last(),
        Some(GitHistoryViewCommand::AttachModel { repository_path }) if repository_path == "/repo"
    ));
    let commands = view.model_attached(true);
    assert!(matches!(commands[0], GitHistoryViewCommand::SyncMouseStates));
    view
}

#[test]
fn status_labels() {
    assert_eq!(working_tree_status_label(&GitWorkingTreeChangeStatus::Added), "A");
    assert_eq!(working_tree_status_label(&GitWorkingTreeChangeStatus::Modified), "M");
    assert_eq!(working_tree_status_label(&GitWorkingTreeChangeStatus::Deleted), "D");
    assert_eq!(
        working_tree_status_label(&GitWorkingTreeChangeStatus::Renamed { old_path: "a".into() }),
        "R"
    );
    assert_eq!(
        working_tree_status_label(&GitWorkingTreeChangeStatus::Copied { old_path: "a".into() }),
        "C"
    );
    assert_eq!(working_tree_status_label(&GitWorkingTreeChangeStatus::Untracked), "U");
    assert_eq!(working_tree_status_label(&GitWorkingTreeChangeStatus::Conflicted), "!");
}

#[test]
fn row_texts() {
    let commit = GitHistoryCommit {
        hash: "abcdef0123".into(),
        short_hash: "abcdef0".into(),
        author: "Ann".into(),
        committed_at: "2026-02-03".into(),
        subject: "Fix".into(),
    };
    assert_eq!(commit_metadata_line(&commit), "abcdef0 · Ann · 2026-02-03");
    let file = FileChangeEntry { path: "src/a.rs".into(), additions: 120, deletions: 0 };
    assert_eq!(file_stats_line(&file), "src/a.rs  +120  -0");
}

#[test]
fn toggling_mode_twice_restores_and_loads_history() {
    let mut view = attached_view();
    let commands = view.handle_action(&GitHistoryAction::ToggleMode);
    assert_eq!(view.mode(), GitSidebarMode::History);
    assert!(matches!(
        commands[0],
        GitHistoryViewCommand::SetModeToggleLabel(ModeToggleLabel::ShowChanges)
    ));
    assert!(matches!(commands[1], GitHistoryViewCommand::EnsureHistoryLoaded));
    let commands = view.handle_action(&GitHistoryAction::ToggleMode);
    assert_eq!(view.mode(), GitSidebarMode::WorkingTree);
    assert_eq!(commands.len(), 2);
    assert!(matches!(
        commands[0],
        GitHistoryViewCommand::SetModeToggleLabel(ModeToggleLabel::ShowHistory)
    ));
}

#[test]
fn refresh_follows_the_mode_and_needs_a_model() {
    let mut detached = GitHistoryView::new();
    assert!(detached.handle_action(&GitHistoryAction::Refresh).is_empty());
    assert!(detached.handle_action(&GitHistoryAction::LoadMore).is_empty());

    let mut view = attached_view();
    let commands = view.handle_action(&GitHistoryAction::Refresh);
    assert!(matches!(commands[..], [GitHistoryViewCommand::RefreshWorkingTree]));
    view.handle_action(&GitHistoryAction::ToggleMode);
    let commands = view.handle_action(&GitHistoryAction::Refresh);
    assert!(matches!(commands[..], [GitHistoryViewCommand::RefreshHistory]));
    let commands = view.handle_action(&GitHistoryAction::LoadMore);
    assert!(matches!(commands[..], [GitHistoryViewCommand::LoadMore]));
}

#[test]
fn toggling_a_commit_twice_collapses_it() {
    let mut view = attached_view();
    let action = GitHistoryAction::ToggleCommit { hash: "abc".to_string() };
    let commands = view.handle_action(&action);
    assert!(view.is_expanded("abc"));
    assert!(matches!(
        &commands[0],
        GitHistoryViewCommand::LoadCommitFiles { hash } if hash == "abc"
    ));
    let commands = view.handle_action(&action);
    assert!(!view.is_expanded("abc"));
    assert!(matches!(commands[..], [GitHistoryViewCommand::Notify]));
}

#[test]
fn open_actions_become_events() {
    let mut view = GitHistoryView::new();
    let change = parse_working_tree_changes("? new.txt\0").unstaged[0].clone();
    let commands = view.handle_action(&GitHistoryAction::OpenWorkingTreeDiff {
        repo_path: "/repo".into(),
        area: GitWorkingTreeArea::Unstaged,
        change: change.clone(),
    });
    match &commands[..] {
        [GitHistoryViewCommand::Emit(event)] => assert_eq!(
            *event,
            GitHistoryEvent::OpenWorkingTreeDiff {
                repo_path: "/repo".into(),
                area: GitWorkingTreeArea::Unstaged,
                change,
            }
        ),
        _ => panic!("expected one event"),
    }
    let commands = view.handle_action(&GitHistoryAction::OpenFileDiff {
        repo_path: "/repo".into(),
        commit_hash: "abc".into(),
        commit_subject: "Fix".into(),
        file_path: "a.rs".into(),
    });
    assert!(matches!(
        &commands[..],
        [GitHistoryViewCommand::Emit(GitHistoryEvent::OpenFileDiff { file_path, .. })] if file_path == "a.rs"
    ));
}

#[test]
fn switching_repository_forgets_expansions() {
    let mut view = attached_view();
    view.handle_action(&GitHistoryAction::ToggleCommit { hash: "abc".to_string() });
    assert!(view.set_repository(Some("/repo".to_string())).is_empty());
    assert!(view.is_expanded("abc"));
    let commands = view.set_repository(None);
    assert!(matches!(commands[0], GitHistoryViewCommand::DetachModel));
    assert!(matches!(commands.last(), Some(GitHistoryViewCommand::Notify)));
    assert!(!view.is_expanded("abc"));
    assert!(view.handle_action(&GitHistoryAction::Refresh).is_empty());
}

#[test]
fn model_updates_ask_for_files_of_expanded_commits_only() {
    let mut view = attached_view();
    let (mut model, _) = GitHistoryModel::new("/repo".to_string());
    let commands = model.refresh_history();
    let generation = match commands.last() {
        Some(GitHistoryCommand::LoadHistory { generation }) => *generation,
        _ => panic!("expected a history request"),
    };
    let commit = |h: &str| GitHistoryCommit {
        hash: h.into(),
        short_hash: h.into(),
        author: "A".into(),
        committed_at: "d".into(),
        subject: h.into(),
    };
    model.history_page_loaded(
        generation,
        Ok(GitHistoryPage { commits: vec![commit("a"), commit("b"), commit("c")], has_more: false }),
    );
    view.handle_action(&GitHistoryAction::ToggleCommit { hash: "a".into() });
    view.handle_action(&GitHistoryAction::ToggleCommit { hash: "c".into() });
    view.handle_action(&GitHistoryAction::ToggleCommit { hash: "gone".into() });
    model.load_commit_files("c".into());
    assert_eq!(view.expanded_commit_files_to_load(&model), vec!["a".to_string()]);
    let commands = view.model_updated(&model);
    assert_eq!(commands.len(), 3);
    assert!(matches!(
        &commands[1],
        GitHistoryViewCommand::LoadCommitFiles { hash } if hash == "a"
    ));
}

#[test]
fn hover_keys_follow_the_model_rows() {
    let (mut model, commands) = GitHistoryModel::new("/repo".to_string());
    let g = match commands.last() {
        Some(GitHistoryCommand::LoadWorkingTree { generation }) => *generation,
        _ => panic!("expected a working tree request"),
    };
    model.working_tree_loaded(
        g,
        Ok(parse_working_tree_changes("1 MM N... 100644 100644 100644 a b x.rs\0? y.rs\0")),
    );
    let g = match model.refresh_history().last() {
        Some(GitHistoryCommand::LoadHistory { generation }) => *generation,
        _ => panic!("expected a history request"),
    };
    let commit = |h: &str| GitHistoryCommit {
        hash: h.into(),
        short_hash: h.into(),
        author: "A".into(),
        committed_at: "d".into(),
        subject: h.into(),
    };
    model.history_page_loaded(g, Ok(GitHistoryPage { commits: vec![commit("a"), commit("b")], has_more: false }));
    model.load_commit_files("b".into());
    model.commit_files_loaded(
        "b".into(),
        Ok(vec![
            FileChangeEntry { path: "p.rs".into(), additions: 1, deletions: 1 },
            FileChangeEntry { path: "q.rs".into(), additions: 2, deletions: 0 },
        ]),
    );
    let keys = warp::git_history_view::hover_keys(&model);
    assert_eq!(
        keys.working_tree,
        vec![
            (GitWorkingTreeArea::Staged, "x.rs".to_string()),
            (GitWorkingTreeArea::Unstaged, "x.rs".to_string()),
            (GitWorkingTreeArea::Unstaged, "y.rs".to_string()),
        ]
    );
    assert_eq!(keys.commits, vec!["a".to_string(), "b".to_string()]);
    assert_eq!(
        keys.files,
        vec![("b".to_string(), "p.rs".to_string()), ("b".to_string(), "q.rs".to_string())]
    );
}

#[test]
fn a_hash_listed_twice_is_asked_for_once() {
    let mut view = attached_view();
    let (mut model, _) = GitHistoryModel::new("/repo".to_string());
    let commands = model.refresh_history();
    let generation = match commands.last() {
        Some(GitHistoryCommand::LoadHistory { generation }) => *generation,
        _ => panic!("expected a history request"),
    };
    let commit = |h: &str| GitHistoryCommit {
        hash: h.into(),
        short_hash: h.into(),
        author: "A".into(),
        committed_at: "d".into(),
        subject: h.into(),
    };
    model.history_page_loaded(
        generation,
        Ok(GitHistoryPage {
            commits: vec![commit("a"), commit("b"), commit("a"), commit("b")],
            has_more: false,
        }),
    );
    view.handle_action(&GitHistoryAction::ToggleCommit { hash: "a".into() });
    view.handle_action(&GitHistoryAction::ToggleCommit { hash: "b".into() });
    assert_eq!(
        view.expanded_commit_files_to_load(&model),
        vec!["a".to_string(), "b".to_string()]
    );
    let commands = view.model_updated(&model);
    let asked: Vec<&String> = commands
        .iter()
        .filter_map(|c| match c {
            GitHistoryViewCommand::LoadCommitFiles { hash } => Some(hash),
            _ => None,
        })
        .collect();
    assert_eq!(asked, vec!["a", "b"]);
}

#[test]
fn header_title_follows_the_mode() {
    let mut view = attached_view();
    assert_eq!(view.header_title_key(), "git-working-tree-title");
    assert_eq!(view.header_repository_text(), "/repo");
    view.handle_action(&GitHistoryAction::ToggleMode);
    assert_eq!(view.header_title_key(), "git-history-title");
    assert_eq!(GitHistoryView::new().header_repository_text(), "");
}

#[test]
fn section_headers_show_label_and_count() {
    assert_eq!(section_header_text("Staged", 3), "Staged (3)");
    assert_eq!(section_header_text("Unstaged", 0), "Unstaged (0)");
    assert_eq!(section_header_text("", 120), " (120)");
}

#[test]
fn only_nonempty_sections_are_shown() {
    let changes = parse_working_tree_changes("1 M. N... 100644 100644 100644 a a a.rs\0? new.txt\0");
    assert_eq!(
        working_tree_sections(&changes),
        vec![(GitWorkingTreeArea::Staged, 1), (GitWorkingTreeArea::Unstaged, 1)]
    );
    let unstaged_only = parse_working_tree_changes("? new.txt\0");
    assert_eq!(working_tree_sections(&unstaged_only), vec![(GitWorkingTreeArea::Unstaged, 1)]);
    assert!(working_tree_sections(&parse_working_tree_changes("")).is_empty());
}

#[test]
fn clicks_open_diffs_only_with_a_repository() {
    let change = parse_working_tree_changes("? new.txt\0").unstaged[0].clone();
    assert_eq!(
        GitHistoryView::new().working_tree_change_click(GitWorkingTreeArea::Unstaged, &change),
        None
    );
    let view = attached_view();
    assert_eq!(
        view.working_tree_change_click(GitWorkingTreeArea::Unstaged, &change),
        Some(GitHistoryAction::OpenWorkingTreeDiff {
            repo_path: "/repo".into(),
            area: GitWorkingTreeArea::Unstaged,
            change: change.clone(),
        })
    );
    let commit = GitHistoryCommit {
        hash: "abc".into(),
        short_hash: "abc".into(),
        author: "A".into(),
        committed_at: "d".into(),
        subject: "Fix".into(),
    };
    assert_eq!(GitHistoryView::new().commit_file_click(&commit, "a.rs"), None);
    assert_eq!(
        view.commit_file_click(&commit, "a.rs"),
        Some(GitHistoryAction::OpenFileDiff {
            repo_path: "/repo".into(),
            commit_hash: "abc".into(),
            commit_subject: "Fix".into(),
            file_path: "a.rs".into(),
        })
    );
}

#[test]
fn the_same_repository_under_another_spelling_changes_nothing() {
    let mut view = attached_view();
    view.handle_action(&GitHistoryAction::ToggleCommit { hash: "a".into() });
    assert!(view.set_repository(Some("/repo/".to_string())).is_empty());
    assert!(view.set_repository(Some("//repo/./".to_string())).is_empty());
    assert!(view.is_expanded("a"));
    assert_eq!(view.header_repository_text(), "/repo");
    let commands = view.set_repository(Some("/repo/sub/..".to_string()));
    assert!(!commands.is_empty());
    assert!(!view.is_expanded("a"));
}

#[test]
fn sidebar_body_follows_model_and_mode() {
    let mut detached = GitHistoryView::new();
    assert_eq!(detached.body(), SidebarBody::NoLocalRepository);
    detached.set_repository(Some("/repo".to_string()));
    assert_eq!(detached.body(), SidebarBody::NoLocalRepository);
    let mut view = attached_view();
    assert_eq!(view.body(), SidebarBody::WorkingTree);
    view.handle_action(&GitHistoryAction::ToggleMode);
    assert_eq!(view.body(), SidebarBody::History);
    view.model_attached(false);
    view.set_repository(None);
    assert_eq!(view.body(), SidebarBody::NoLocalRepository);
}
