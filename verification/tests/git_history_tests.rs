use warp::git::{
    parse_working_tree_changes, FileChangeEntry, GitHistoryCommit, GitHistoryPage,
    GitWorkingTreeChangeStatus,
};
use warp::git_history::{
    CommitFilesDisplay, GitHistoryCommand, GitHistoryModel, HistoryNotice, HistoryPlaceholder,
    RepositoryWatcher,
    WorkingTreePlaceholder, PAGE_SIZE,
};

fn commit(hash: &str, subject: &str) -> GitHistoryCommit {
    GitHistoryCommit {
        hash: hash.to_string(),
        short_hash: hash.chars().take(7).collect(),
        author: "Test".to_string(),
        committed_at: "2026-01-01T00:00:00+00:00".to_string(),
        subject: subject.to_string(),
    }
}

fn page(hashes: &[&str], has_more: bool) -> GitHistoryPage {
    GitHistoryPage {
        commits: hashes.iter().map(|h| commit(h, h)).collect(),
        has_more,
    }
}

fn working_tree_generation(commands: &[GitHistoryCommand]) -> u64 {
    match commands.last() {
        Some(GitHistoryCommand::LoadWorkingTree { generation }) => *generation,
        _ => panic!("expected a working tree request"),
    }
}

fn history_generation(commands: &[GitHistoryCommand]) -> u64 {
    match commands.last() {
        Some(GitHistoryCommand::LoadHistory { generation }) => *generation,
        Some(GitHistoryCommand::LoadMoreHistory { generation, .. }) => *generation,
        _ => panic!("expected a history request"),
    }
}

#[test]
fn new_model_reads_the_working_tree() {
    let (model, commands) = GitHistoryModel::new("/repo".to_string());
    assert_eq!(commands.len(), 2);
    assert!(matches!(commands[0], GitHistoryCommand::EmitUpdated));
    assert!(matches!(commands[1], GitHistoryCommand::LoadWorkingTree { generation: 1 }));
    assert!(model.is_working_tree_loading());
    assert_eq!(
        model.working_tree_placeholder(),
        Some(WorkingTreePlaceholder::Loading)
    );
}

#[test]
fn superseded_working_tree_result_is_dropped() {
    let (mut model, commands) = GitHistoryModel::new("/repo".to_string());
    let first = working_tree_generation(&commands);
    let commands = model.refresh_working_tree();
    assert!(matches!(commands[0], GitHistoryCommand::AbortWorkingTreeRequest));
    let second = working_tree_generation(&commands);
    assert_ne!(first, second);

    let stale = parse_working_tree_changes("? stale.txt\0");
    assert!(model.working_tree_loaded(first, Ok(stale)).is_empty());
    assert!(model.is_working_tree_loading());

    let fresh = parse_working_tree_changes("1 .M N... 100644 100644 100644 a b fresh.txt\0");
    let commands = model.working_tree_loaded(second, Ok(fresh));
    assert_eq!(commands.len(), 1);
    assert!(!model.is_working_tree_loading());
    assert_eq!(model.working_tree_changes().unstaged[0].path, "fresh.txt");
    assert_eq!(
        model.working_tree_changes().unstaged[0].status,
        GitWorkingTreeChangeStatus::Modified
    );
    assert_eq!(model.working_tree_placeholder(), None);
}

#[test]
fn working_tree_error_empties_changes() {
    let (mut model, commands) = GitHistoryModel::new("/repo".to_string());
    let g = working_tree_generation(&commands);
    model.working_tree_loaded(g, Err("not a git repository".to_string()));
    assert_eq!(model.working_tree_error(), Some("not a git repository"));
    assert!(model.working_tree_changes().staged.is_empty());
    assert_eq!(
        model.working_tree_placeholder(),
        Some(WorkingTreePlaceholder::LoadError("not a git repository".to_string()))
    );
    let commands = model.refresh_working_tree();
    assert_eq!(model.working_tree_error(), None);
    let g = working_tree_generation(&commands);
    model.working_tree_loaded(g, Ok(parse_working_tree_changes("")));
    assert_eq!(model.working_tree_placeholder(), Some(WorkingTreePlaceholder::Clean));
}

#[test]
fn history_loads_once_and_pages_append() {
    let (mut model, _) = GitHistoryModel::new("/repo".to_string());
    assert_eq!(model.history_placeholder(), Some(HistoryPlaceholder::Empty));
    let commands = model.ensure_history_loaded();
    let g = history_generation(&commands);
    assert!(model.ensure_history_loaded().is_empty());
    assert_eq!(model.history_placeholder(), Some(HistoryPlaceholder::Loading));

    model.history_page_loaded(g, Ok(page(&["c3", "c2"], true)));
    assert_eq!(model.commits().len(), 2);
    assert!(model.has_more());
    assert_eq!(model.history_notice(), None);

    let commands = model.load_more();
    match commands.last() {
        Some(GitHistoryCommand::LoadMoreHistory { skip, .. }) => assert_eq!(*skip, 2),
        _ => panic!("expected a next-page request"),
    }
    assert!(model.load_more().is_empty());
    assert_eq!(model.history_notice(), Some(HistoryNotice::Loading));
    let g = history_generation(&commands);
    model.more_history_loaded(g, Ok(page(&["c1"], false)));
    let subjects: Vec<&str> = model.commits().iter().map(|c| c.subject.as_str()).collect();
    assert_eq!(subjects, vec!["c3", "c2", "c1"]);
    assert!(!model.has_more());
    assert!(model.load_more().is_empty());
    assert_eq!(PAGE_SIZE, 50);
}

#[test]
fn next_page_error_keeps_commits() {
    let (mut model, _) = GitHistoryModel::new("/repo".to_string());
    let g = history_generation(&model.refresh_history());
    model.history_page_loaded(g, Ok(page(&["c2"], true)));
    let g = history_generation(&model.load_more());
    model.more_history_loaded(g, Err("timeout".to_string()));
    assert_eq!(model.commits().len(), 1);
    assert_eq!(model.error(), Some("timeout"));
    assert_eq!(
        model.history_notice(),
        Some(HistoryNotice::LoadError("timeout".to_string()))
    );
}

#[test]
fn refreshed_history_drops_old_page_and_file_lists() {
    let (mut model, _) = GitHistoryModel::new("/repo".to_string());
    let g1 = history_generation(&model.refresh_history());
    model.history_page_loaded(g1, Ok(page(&["a"], false)));
    model.load_commit_files("a".to_string());
    model.commit_files_loaded(
        "a".to_string(),
        Ok(vec![FileChangeEntry { path: "x.rs".to_string(), additions: 1, deletions: 0 }]),
    );
    assert!(model.commit_files("a").is_some());

    let g2 = history_generation(&model.refresh_history());
    assert!(model.history_page_loaded(g1, Ok(page(&["stale"], false))).is_empty());
    model.history_page_loaded(g2, Ok(page(&["b"], false)));
    assert_eq!(model.commits()[0].hash, "b");
    assert!(model.commit_files("a").is_none());

    let g3 = history_generation(&model.refresh_history());
    model.history_page_loaded(g3, Err("boom".to_string()));
    assert!(model.commits().is_empty());
    assert!(!model.has_more());
    assert_eq!(
        model.history_placeholder(),
        Some(HistoryPlaceholder::LoadError("boom".to_string()))
    );
}

#[test]
fn commit_files_are_requested_once() {
    let (mut model, _) = GitHistoryModel::new("/repo".to_string());
    let commands = model.load_commit_files("abc".to_string());
    assert!(matches!(
        commands.last(),
        Some(GitHistoryCommand::LoadCommitFiles { hash }) if hash == "abc"
    ));
    assert!(model.is_loading_files("abc"));
    assert!(model.load_commit_files("abc".to_string()).is_empty());
    assert_eq!(model.commit_files_display("abc"), CommitFilesDisplay::Loading);

    model.commit_files_loaded("abc".to_string(), Err("bad object".to_string()));
    assert_eq!(model.commit_file_error("abc"), Some("bad object"));
    assert_eq!(
        model.commit_files_display("abc"),
        CommitFilesDisplay::LoadError("bad object".to_string())
    );

    assert_eq!(model.load_commit_files("abc".to_string()).len(), 2);
    assert_eq!(model.commit_file_error("abc"), None);
    model.commit_files_loaded("abc".to_string(), Ok(Vec::new()));
    assert_eq!(model.commit_files_display("abc"), CommitFilesDisplay::NoChangedFiles);
    assert!(model.load_commit_files("abc".to_string()).is_empty());
    assert_eq!(model.commit_files_display("zzz"), CommitFilesDisplay::Nothing);
}

#[test]
fn repository_updates_refresh_what_was_asked_for() {
    let (mut model, _) = GitHistoryModel::new("/repo".to_string());
    assert!(model.repository_updated(true, true).is_empty());
    let commands = model.repository_updated(false, true);
    assert!(commands
        .iter()
        .all(|c| !matches!(c, GitHistoryCommand::LoadHistory { .. })));
    model.ensure_history_loaded();
    let commands = model.repository_updated(true, true);
    assert!(matches!(commands.last(), Some(GitHistoryCommand::LoadHistory { .. })));
    assert!(matches!(commands[0], GitHistoryCommand::AbortHistoryRequest));
    let shutdown = model.shutdown();
    assert_eq!(shutdown.len(), 2);
}

#[test]
fn failed_watcher_registration_stops_the_subscription() {
    let mut watcher = RepositoryWatcher::new();
    assert_eq!(watcher.stop_active_watcher(), None);
    watcher.start_watching(7);
    assert_eq!(watcher.registration_finished(true), None);
    assert_eq!(watcher.subscriber_id(), Some(7));
    assert_eq!(watcher.registration_finished(false), Some(7));
    assert_eq!(watcher.subscriber_id(), None);
    assert_eq!(watcher.stop_active_watcher(), None);
}
