//! The git sidebar's own state: which repository it shows, whether it
//! lists the working tree or the history, and which commits are expanded.
//! Each operation returns the commands that carry it out against the
//! history model and the UI.
use vstd::prelude::*;
use vstd::hash_map::StringHashMap;

use crate::git::{
    change_views, commit_views, ChangeView, CommitView, FileChangeEntry, GitHistoryCommit, GitWorkingTreeArea,
    GitWorkingTreeChange, GitWorkingTreeChangeStatus, GitWorkingTreeChanges, StatusView,
};
use crate::git_history::{file_views, opt_string_view, FileView, GitHistoryModel, GitHistoryState};
use crate::text::{copy_string, decimal, path_components, push_decimal, push_str, same_path_components, str_equal};

verus! {

/// What the sidebar lists.
#[derive(Clone, Copy, Debug, PartialEq, Eq, Structural)]
pub enum GitSidebarMode {
    WorkingTree,
    History,
}

/// The interactions that the sidebar supports.
#[derive(Clone, Debug, PartialEq, Eq)]
pub enum GitHistoryAction {
    Refresh,
    ToggleMode,
    LoadMore,
    ToggleCommit { hash: String },
    OpenFileDiff {
        repo_path: String,
        commit_hash: String,
        commit_subject: String,
        file_path: String,
    },
    OpenWorkingTreeDiff {
        repo_path: String,
        area: GitWorkingTreeArea,
        change: GitWorkingTreeChange,
    },
}

/// What the sidebar tells its owner.
#[derive(Clone, Debug, PartialEq, Eq)]
pub enum GitHistoryEvent {
    Updated,
    OpenFileDiff {
        repo_path: String,
        commit_hash: String,
        commit_subject: String,
        file_path: String,
    },
    OpenWorkingTreeDiff {
        repo_path: String,
        area: GitWorkingTreeArea,
        change: GitWorkingTreeChange,
    },
}

/// An event as plain values.
pub enum EventView {
    Updated,
    OpenFileDiff {
        repo_path: Seq<char>,
        commit_hash: Seq<char>,
        commit_subject: Seq<char>,
        file_path: Seq<char>,
    },
    OpenWorkingTreeDiff { repo_path: Seq<char>, area: GitWorkingTreeArea, change: ChangeView },
}

impl View for GitHistoryEvent {
    type V = EventView;

    open spec fn view(&self) -> EventView {
        match self {
            GitHistoryEvent::Updated => EventView::Updated,
            GitHistoryEvent::OpenFileDiff { repo_path, commit_hash, commit_subject, file_path } =>
                EventView::OpenFileDiff {
                repo_path: repo_path@,
                commit_hash: commit_hash@,
                commit_subject: commit_subject@,
                file_path: file_path@,
            },
            GitHistoryEvent::OpenWorkingTreeDiff { repo_path, area, change } =>
                EventView::OpenWorkingTreeDiff {
                repo_path: repo_path@,
                area: *area,
                change: change@,
            },
        }
    }
}

/// The label of the button that switches the list.
#[derive(Clone, Copy, Debug, PartialEq, Eq, Structural)]
pub enum ModeToggleLabel {
    ShowHistory,
    ShowChanges,
}

/// What the sidebar asks its owner to do.
pub enum GitHistoryViewCommand {
    /// Emit this event.
    Emit(GitHistoryEvent),
    /// Run the history model's `refresh_working_tree`.
    RefreshWorkingTree,
    /// Run the history model's `refresh_history`.
    RefreshHistory,
    /// Run the history model's `ensure_history_loaded`.
    EnsureHistoryLoaded,
    /// Run the history model's `load_more`.
    LoadMore,
    /// Run the history model's `load_commit_files` for `hash`.
    LoadCommitFiles { hash: String },
    /// Show this label on the mode button.
    SetModeToggleLabel(ModeToggleLabel),
    /// Redraw.
    Notify,
    /// Stop listening to the current history model and let it go.
    DetachModel,
    /// Forget the hover states of rows.
    ClearMouseStates,
    /// Get or make the history model of `repository_path`, then report with
    /// `model_attached` whether there is one.
    AttachModel { repository_path: String },
    /// Match the hover states of rows to the model's rows.
    SyncMouseStates,
    /// Listen to the model: on each of its updates run `model_updated`.
    Subscribe,
}

/// A command as plain values.
pub enum ViewCommandView {
    Emit(EventView),
    RefreshWorkingTree,
    RefreshHistory,
    EnsureHistoryLoaded,
    LoadMore,
    LoadCommitFiles { hash: Seq<char> },
    SetModeToggleLabel(ModeToggleLabel),
    Notify,
    DetachModel,
    ClearMouseStates,
    AttachModel { repository_path: Seq<char> },
    SyncMouseStates,
    Subscribe,
}

impl View for GitHistoryViewCommand {
    type V = ViewCommandView;

    open spec fn view(&self) -> ViewCommandView {
        match self {
            GitHistoryViewCommand::Emit(e) => ViewCommandView::Emit(e@),
            GitHistoryViewCommand::RefreshWorkingTree => ViewCommandView::RefreshWorkingTree,
            GitHistoryViewCommand::RefreshHistory => ViewCommandView::RefreshHistory,
            GitHistoryViewCommand::EnsureHistoryLoaded => ViewCommandView::EnsureHistoryLoaded,
            GitHistoryViewCommand::LoadMore => ViewCommandView::LoadMore,
            GitHistoryViewCommand::LoadCommitFiles { hash } => ViewCommandView::LoadCommitFiles {
                hash: hash@,
            },
            GitHistoryViewCommand::SetModeToggleLabel(l) => ViewCommandView::SetModeToggleLabel(*l),
            GitHistoryViewCommand::Notify => ViewCommandView::Notify,
            GitHistoryViewCommand::DetachModel => ViewCommandView::DetachModel,
            GitHistoryViewCommand::ClearMouseStates => ViewCommandView::ClearMouseStates,
            GitHistoryViewCommand::AttachModel { repository_path } => ViewCommandView::AttachModel {
                repository_path: repository_path@,
            },
            GitHistoryViewCommand::SyncMouseStates => ViewCommandView::SyncMouseStates,
            GitHistoryViewCommand::Subscribe => ViewCommandView::Subscribe,
        }
    }
}

pub open spec fn view_command_views(s: Seq<GitHistoryViewCommand>) -> Seq<ViewCommandView> {
    s.map_values(|c: GitHistoryViewCommand| c@)
}

/// The git sidebar.
pub struct GitHistoryView {
    repository_path: Option<String>,
    model_attached: bool,
    mode: GitSidebarMode,
    expanded_commits: StringHashMap<()>,
}

/// The sidebar as plain values.
pub struct GitHistoryViewState {
    pub repository_path: Option<Seq<char>>,
    pub model_attached: bool,
    pub mode: GitSidebarMode,
    pub expanded_commits: Set<Seq<char>>,
}

impl View for GitHistoryView {
    type V = GitHistoryViewState;

    closed spec fn view(&self) -> GitHistoryViewState {
        GitHistoryViewState {
            repository_path: opt_string_view(self.repository_path),
            model_attached: self.model_attached,
            mode: self.mode,
            expanded_commits: self.expanded_commits@.dom(),
        }
    }
}

/// The other list.
pub open spec fn toggled(mode: GitSidebarMode) -> GitSidebarMode {
    match mode {
        GitSidebarMode::WorkingTree => GitSidebarMode::History,
        GitSidebarMode::History => GitSidebarMode::WorkingTree,
    }
}

/// The label that the mode button shows while `mode` is listed: it offers
/// the other list.
pub open spec fn toggle_label(mode: GitSidebarMode) -> ModeToggleLabel {
    match mode {
        GitSidebarMode::WorkingTree => ModeToggleLabel::ShowHistory,
        GitSidebarMode::History => ModeToggleLabel::ShowChanges,
    }
}

/// The sidebar with no repository, listing the working tree.
pub open spec fn initial_view_state() -> GitHistoryViewState {
    GitHistoryViewState {
        repository_path: None,
        model_attached: false,
        mode: GitSidebarMode::WorkingTree,
        expanded_commits: Set::empty(),
    }
}

/// What an action does: the open-diff actions are passed on as events;
/// the others act on the history model and need one.
pub open spec fn spec_handle_action(s: GitHistoryViewState, action: GitHistoryAction) -> (
    GitHistoryViewState,
    Seq<ViewCommandView>,
) {
    match action {
        GitHistoryAction::OpenFileDiff { repo_path, commit_hash, commit_subject, file_path } => (
            s,
            seq![
                ViewCommandView::Emit(
                    EventView::OpenFileDiff {
                        repo_path: repo_path@,
                        commit_hash: commit_hash@,
                        commit_subject: commit_subject@,
                        file_path: file_path@,
                    },
                ),
            ],
        ),
        GitHistoryAction::OpenWorkingTreeDiff { repo_path, area, change } => (
            s,
            seq![
                ViewCommandView::Emit(
                    EventView::OpenWorkingTreeDiff { repo_path: repo_path@, area, change: change@ },
                ),
            ],
        ),
        GitHistoryAction::Refresh => if !s.model_attached {
            (s, Seq::empty())
        } else {
            match s.mode {
                GitSidebarMode::WorkingTree => (s, seq![ViewCommandView::RefreshWorkingTree]),
                GitSidebarMode::History => (s, seq![ViewCommandView::RefreshHistory]),
            }
        },
        GitHistoryAction::ToggleMode => {
            let mode = toggled(s.mode);
            (
                GitHistoryViewState { mode, ..s },
                seq![ViewCommandView::SetModeToggleLabel(toggle_label(mode))] + (if mode
                    == GitSidebarMode::History && s.model_attached {
                    seq![ViewCommandView::EnsureHistoryLoaded]
                } else {
                    Seq::empty()
                }) + seq![ViewCommandView::Notify],
            )
        },
        GitHistoryAction::LoadMore => if !s.model_attached {
            (s, Seq::empty())
        } else {
            (s, seq![ViewCommandView::LoadMore])
        },
        GitHistoryAction::ToggleCommit { hash } => if !s.model_attached {
            (s, Seq::empty())
        } else if s.expanded_commits.contains(hash@) {
            (
                GitHistoryViewState { expanded_commits: s.expanded_commits.remove(hash@), ..s },
                seq![ViewCommandView::Notify],
            )
        } else {
            (
                GitHistoryViewState { expanded_commits: s.expanded_commits.insert(hash@), ..s },
                seq![ViewCommandView::LoadCommitFiles { hash: hash@ }, ViewCommandView::Notify],
            )
        },
    }
}

/// Whether two repository paths (or none) name the same repository: both
/// none, or paths with the same components (see `path_components`).
pub open spec fn same_repository(a: Option<Seq<char>>, b: Option<Seq<char>>) -> bool {
    match (a, b) {
        (Some(x), Some(y)) => path_components(x) == path_components(y),
        (None, None) => true,
        _ => false,
    }
}

/// Switching to another repository (or to none): nothing when it is the
/// one shown (see `same_repository`); otherwise the old model is let go, expansions and hover
/// states are forgotten, and the new repository's model is asked for.
pub open spec fn spec_set_repository(s: GitHistoryViewState, repository_path: Option<Seq<char>>) -> (
    GitHistoryViewState,
    Seq<ViewCommandView>,
) {
    if same_repository(s.repository_path, repository_path) {
        (s, Seq::empty())
    } else {
        let t = GitHistoryViewState {
            repository_path,
            model_attached: false,
            expanded_commits: Set::empty(),
            ..s
        };
        let detach = if s.model_attached {
            seq![ViewCommandView::DetachModel]
        } else {
            Seq::empty()
        };
        let tail = match repository_path {
            Some(p) => seq![ViewCommandView::AttachModel { repository_path: p }],
            None => seq![ViewCommandView::Notify],
        };
        (t, detach + seq![ViewCommandView::ClearMouseStates] + tail)
    }
}

/// The answer to `AttachModel`: with a model the sidebar syncs to it,
/// reads the history when it lists it, and listens to it.
pub open spec fn spec_model_attached(s: GitHistoryViewState, attached: bool) -> (
    GitHistoryViewState,
    Seq<ViewCommandView>,
) {
    if !attached {
        (s, seq![ViewCommandView::Notify])
    } else {
        (
            GitHistoryViewState { model_attached: true, ..s },
            seq![ViewCommandView::SyncMouseStates] + (if s.mode == GitSidebarMode::History {
                seq![ViewCommandView::EnsureHistoryLoaded]
            } else {
                Seq::empty()
            }) + seq![ViewCommandView::Subscribe, ViewCommandView::Notify],
        )
    }
}

/// Whether the files of a listed, expanded commit still have to be asked
/// for: none are loaded, loading, or failed.
pub open spec fn needs_files(view: GitHistoryViewState, model: GitHistoryState, c: CommitView) -> bool {
    &&& view.expanded_commits.contains(c.hash)
    &&& !model.commit_files.contains_key(c.hash)
    &&& !model.loading_files.contains(c.hash)
    &&& !model.file_errors.contains_key(c.hash)
}

/// The hashes, in list order, of the expanded commits whose files still
/// have to be asked for, each once.
pub open spec fn spec_expanded_commit_files_to_load(view: GitHistoryViewState, model: GitHistoryState) -> Seq<
    Seq<char>,
>
    decreases model.commits.len(),
{
    if model.commits.len() == 0 {
        Seq::empty()
    } else {
        let before = spec_expanded_commit_files_to_load(
            view,
            GitHistoryState { commits: model.commits.drop_last(), ..model },
        );
        if needs_files(view, model, model.commits.last()) && !before.contains(model.commits.last().hash) {
            before.push(model.commits.last().hash)
        } else {
            before
        }
    }
}

/// Whether `v` holds a string equal to `s`.
fn contains_string(v: &Vec<String>, s: &str) -> (r: bool)
    ensures
        r == v@.map_values(|x: String| x@).contains(s@),
{
    let ghost ms = v@.map_values(|x: String| x@);
    let mut i: usize = 0;
    while i < v.len()
        invariant
            i <= v.len(),
            ms == v@.map_values(|x: String| x@),
            forall|k: int| 0 <= k < i ==> ms[k] != s@,
        decreases v.len() - i,
    {
        assert(ms[i as int] == v@[i as int]@);
        if str_equal(v[i].as_str(), s) {
            return true;
        }
        i = i + 1;
    }
    false
}

/// A `LoadCommitFiles` command for each hash, in order.
pub open spec fn load_files_commands(hashes: Seq<Seq<char>>) -> Seq<ViewCommandView> {
    Seq::new(hashes.len(), |i: int| ViewCommandView::LoadCommitFiles { hash: hashes[i] })
}

/// Whether `a` and `b` name the same repository (see `same_repository`).
fn same_path(a: &Option<String>, b: &Option<String>) -> (r: bool)
    ensures
        r == same_repository(opt_string_view(*a), opt_string_view(*b)),
{
    match (a, b) {
        (Some(x), Some(y)) => same_path_components(x.as_str(), y.as_str()),
        (None, None) => true,
        _ => false,
    }
}

/// A copy of `c`.
pub fn copy_change(c: &GitWorkingTreeChange) -> (r: GitWorkingTreeChange)
    ensures
        r@ == c@,
{
    let status = match &c.status {
        GitWorkingTreeChangeStatus::Added => GitWorkingTreeChangeStatus::Added,
        GitWorkingTreeChangeStatus::Modified => GitWorkingTreeChangeStatus::Modified,
        GitWorkingTreeChangeStatus::Deleted => GitWorkingTreeChangeStatus::Deleted,
        GitWorkingTreeChangeStatus::Renamed { old_path } => GitWorkingTreeChangeStatus::Renamed {
            old_path: copy_string(old_path),
        },
        GitWorkingTreeChangeStatus::Copied { old_path } => GitWorkingTreeChangeStatus::Copied {
            old_path: copy_string(old_path),
        },
        GitWorkingTreeChangeStatus::Untracked => GitWorkingTreeChangeStatus::Untracked,
        GitWorkingTreeChangeStatus::Conflicted => GitWorkingTreeChangeStatus::Conflicted,
    };
    GitWorkingTreeChange { path: copy_string(&c.path), status }
}

impl GitHistoryView {
    /// A sidebar with no repository, listing the working tree.
    pub fn new() -> (view: GitHistoryView)
        ensures
            view@ == initial_view_state(),
    {
        let view = GitHistoryView {
            repository_path: None,
            model_attached: false,
            mode: GitSidebarMode::WorkingTree,
            expanded_commits: StringHashMap::new(),
        };
        assert(view@.expanded_commits =~= Set::<Seq<char>>::empty());
        view
    }

    pub fn mode(&self) -> (r: GitSidebarMode)
        ensures
            r == self@.mode,
    {
        self.mode
    }

    pub fn is_expanded(&self, hash: &str) -> (r: bool)
        ensures
            r == self@.expanded_commits.contains(hash@),
    {
        self.expanded_commits.contains_key(hash)
    }

    /// Carries out an action (see `spec_handle_action`).
    pub fn handle_action(&mut self, action: &GitHistoryAction) -> (commands: Vec<GitHistoryViewCommand>)
        ensures
            (final(self)@, view_command_views(commands@)) == spec_handle_action(old(self)@, *action),
    {
        let mut commands: Vec<GitHistoryViewCommand> = Vec::new();
        match action {
            GitHistoryAction::OpenFileDiff { repo_path, commit_hash, commit_subject, file_path } => {
                commands.push(
                    GitHistoryViewCommand::Emit(
                        GitHistoryEvent::OpenFileDiff {
                            repo_path: copy_string(repo_path),
                            commit_hash: copy_string(commit_hash),
                            commit_subject: copy_string(commit_subject),
                            file_path: copy_string(file_path),
                        },
                    ),
                );
            },
            GitHistoryAction::OpenWorkingTreeDiff { repo_path, area, change } => {
                commands.push(
                    GitHistoryViewCommand::Emit(
                        GitHistoryEvent::OpenWorkingTreeDiff {
                            repo_path: copy_string(repo_path),
                            area: *area,
                            change: copy_change(change),
                        },
                    ),
                );
            },
            GitHistoryAction::Refresh => {
                if self.model_attached {
                    match self.mode {
                        GitSidebarMode::WorkingTree => {
                            commands.push(GitHistoryViewCommand::RefreshWorkingTree);
                        },
                        GitSidebarMode::History => {
                            commands.push(GitHistoryViewCommand::RefreshHistory);
                        },
                    }
                }
            },
            GitHistoryAction::ToggleMode => {
                self.mode = match self.mode {
                    GitSidebarMode::WorkingTree => GitSidebarMode::History,
                    GitSidebarMode::History => GitSidebarMode::WorkingTree,
                };
                let label = match self.mode {
                    GitSidebarMode::WorkingTree => ModeToggleLabel::ShowHistory,
                    GitSidebarMode::History => ModeToggleLabel::ShowChanges,
                };
                commands.push(GitHistoryViewCommand::SetModeToggleLabel(label));
                if self.mode == GitSidebarMode::History && self.model_attached {
                    commands.push(GitHistoryViewCommand::EnsureHistoryLoaded);
                }
                commands.push(GitHistoryViewCommand::Notify);
            },
            GitHistoryAction::LoadMore => {
                if self.model_attached {
                    commands.push(GitHistoryViewCommand::LoadMore);
                }
            },
            GitHistoryAction::ToggleCommit { hash } => {
                if self.model_attached {
                    if self.expanded_commits.contains_key(hash.as_str()) {
                        self.expanded_commits.remove(hash.as_str());
                        commands.push(GitHistoryViewCommand::Notify);
                    } else {
                        self.expanded_commits.insert(copy_string(hash), ());
                        commands.push(GitHistoryViewCommand::LoadCommitFiles { hash: copy_string(hash) });
                        commands.push(GitHistoryViewCommand::Notify);
                    }
                }
            },
        }
        assert(self@.expanded_commits =~= spec_handle_action(old(self)@, *action).0.expanded_commits);
        assert(self@ =~= spec_handle_action(old(self)@, *action).0);
        assert(view_command_views(commands@) =~= spec_handle_action(old(self)@, *action).1);
        commands
    }

    /// Shows `repository_path`, or no repository (see `spec_set_repository`).
    pub fn set_repository(&mut self, repository_path: Option<String>) -> (commands: Vec<GitHistoryViewCommand>)
        ensures
            (final(self)@, view_command_views(commands@)) == spec_set_repository(
                old(self)@,
                opt_string_view(repository_path),
            ),
    {
        let mut commands: Vec<GitHistoryViewCommand> = Vec::new();
        if same_path(&self.repository_path, &repository_path) {
            assert(view_command_views(commands@) =~= Seq::<ViewCommandView>::empty());
            return commands;
        }
        if self.model_attached {
            commands.push(GitHistoryViewCommand::DetachModel);
        }
        self.model_attached = false;
        self.expanded_commits.clear();
        commands.push(GitHistoryViewCommand::ClearMouseStates);
        match &repository_path {
            Some(path) => {
                commands.push(GitHistoryViewCommand::AttachModel { repository_path: copy_string(path) });
            },
            None => {
                commands.push(GitHistoryViewCommand::Notify);
            },
        }
        self.repository_path = repository_path;
        assert(self@.expanded_commits =~= Set::<Seq<char>>::empty());
        assert(self@ =~= spec_set_repository(old(self)@, opt_string_view(repository_path)).0);
        assert(view_command_views(commands@) =~= spec_set_repository(
            old(self)@,
            opt_string_view(repository_path),
        ).1);
        commands
    }

    /// Takes in whether `AttachModel` found a model (see `spec_model_attached`).
    pub fn model_attached(&mut self, attached: bool) -> (commands: Vec<GitHistoryViewCommand>)
        ensures
            (final(self)@, view_command_views(commands@)) == spec_model_attached(old(self)@, attached),
    {
        let mut commands: Vec<GitHistoryViewCommand> = Vec::new();
        if attached {
            self.model_attached = true;
            commands.push(GitHistoryViewCommand::SyncMouseStates);
            if self.mode == GitSidebarMode::History {
                commands.push(GitHistoryViewCommand::EnsureHistoryLoaded);
            }
            commands.push(GitHistoryViewCommand::Subscribe);
        }
        commands.push(GitHistoryViewCommand::Notify);
        assert(self@ =~= spec_model_attached(old(self)@, attached).0);
        assert(view_command_views(commands@) =~= spec_model_attached(old(self)@, attached).1);
        commands
    }

    /// The hashes of the expanded commits whose files still have to be
    /// asked for (see `spec_expanded_commit_files_to_load`).
    pub fn expanded_commit_files_to_load(&self, model: &GitHistoryModel) -> (hashes: Vec<String>)
        ensures
            hashes@.map_values(|h: String| h@) == spec_expanded_commit_files_to_load(self@, model@),
            hashes@.map_values(|h: String| h@).no_duplicates(),
    {
        let commits = model.commits();
        let ghost cs = model@.commits;
        let mut hashes: Vec<String> = Vec::new();
        let mut k: usize = 0;
        while k < commits.len()
            invariant
                commit_views(commits@) == cs,
                cs == model@.commits,
                k <= commits.len(),
                hashes@.map_values(|h: String| h@) == spec_expanded_commit_files_to_load(
                    self@,
                    GitHistoryState { commits: cs.take(k as int), ..model@ },
                ),
            decreases commits.len() - k,
        {
            let c: &GitHistoryCommit = &commits[k];
            let ghost m_next = GitHistoryState { commits: cs.take(k + 1), ..model@ };
            assert(m_next.commits.drop_last() == cs.take(k as int));
            assert(GitHistoryState { commits: m_next.commits.drop_last(), ..m_next } == GitHistoryState {
                commits: cs.take(k as int),
                ..model@
            });
            assert(m_next.commits.last() == c@);
            let h = c.hash.as_str();
            let wanted = self.expanded_commits.contains_key(h) && model.commit_files(h).is_none()
                && !model.is_loading_files(h) && model.commit_file_error(h).is_none()
                && !contains_string(&hashes, h);
            let ghost before = hashes@;
            if wanted {
                hashes.push(copy_string(&c.hash));
                assert(hashes@.map_values(|x: String| x@) =~= before.map_values(|x: String| x@).push(
                    c.hash@,
                ));
            }
            k = k + 1;
        }
        assert(cs.take(commits.len() as int) == cs);
        assert(GitHistoryState { commits: cs, ..model@ } == model@);
        proof {
            lemma_files_to_load_unique(self@, model@);
        }
        hashes
    }

    /// What to do when the model reports a change: sync the hover states,
    /// ask for the files of expanded commits that have none yet, redraw.
    pub fn model_updated(&self, model: &GitHistoryModel) -> (commands: Vec<GitHistoryViewCommand>)
        ensures
            view_command_views(commands@) == seq![ViewCommandView::SyncMouseStates] + load_files_commands(
                spec_expanded_commit_files_to_load(self@, model@),
            ) + seq![
                ViewCommandView::Notify,
            ],
    {
        let hashes = self.expanded_commit_files_to_load(model);
        let ghost hs = hashes@.map_values(|h: String| h@);
        let mut commands: Vec<GitHistoryViewCommand> = Vec::new();
        commands.push(GitHistoryViewCommand::SyncMouseStates);
        let mut k: usize = 0;
        while k < hashes.len()
            invariant
                k <= hashes.len(),
                hs == hashes@.map_values(|h: String| h@),
                view_command_views(commands@) == seq![ViewCommandView::SyncMouseStates] + load_files_commands(hs.take(
                    k as int,
                )),
            decreases hashes.len() - k,
        {
            let ghost before = view_command_views(commands@);
            commands.push(GitHistoryViewCommand::LoadCommitFiles { hash: copy_string(&hashes[k]) });
            assert(hs.take(k + 1) == hs.take(k as int).push(hs[k as int]));
            assert(hs[k as int] == hashes@[k as int]@);
            assert(load_files_commands(hs.take(k + 1)) =~= load_files_commands(hs.take(k as int)).push(
                ViewCommandView::LoadCommitFiles { hash: hs[k as int] },
            ));
            assert(view_command_views(commands@) =~= before.push(
                ViewCommandView::LoadCommitFiles { hash: hs[k as int] },
            ));
            assert(view_command_views(commands@) =~= seq![ViewCommandView::SyncMouseStates] + load_files_commands(hs.take(
                k + 1,
            )));
            k = k + 1;
        }
        assert(hs.take(hashes.len() as int) == hs);
        let ghost before = view_command_views(commands@);
        commands.push(GitHistoryViewCommand::Notify);
        assert(view_command_views(commands@) =~= before.push(ViewCommandView::Notify));
        commands
    }
}

/// The one-letter tag shown beside a working-tree change.
pub open spec fn status_label(status: StatusView) -> Seq<char> {
    match status {
        StatusView::Added => "A"@,
        StatusView::Modified => "M"@,
        StatusView::Deleted => "D"@,
        StatusView::Renamed(_) => "R"@,
        StatusView::Copied(_) => "C"@,
        StatusView::Untracked => "U"@,
        StatusView::Conflicted => "!"@,
    }
}

/// The tag shown beside a working-tree change (see `status_label`).
pub fn working_tree_status_label(status: &GitWorkingTreeChangeStatus) -> (label: &'static str)
    ensures
        label@ == status_label(status@),
{
    match status {
        GitWorkingTreeChangeStatus::Added => "A",
        GitWorkingTreeChangeStatus::Modified => "M",
        GitWorkingTreeChangeStatus::Deleted => "D",
        GitWorkingTreeChangeStatus::Renamed { .. } => "R",
        GitWorkingTreeChangeStatus::Copied { .. } => "C",
        GitWorkingTreeChangeStatus::Untracked => "U",
        GitWorkingTreeChangeStatus::Conflicted => "!",
    }
}

/// What the sidebar shows under its header.
#[derive(Clone, Copy, Debug, PartialEq, Eq, Structural)]
pub enum SidebarBody {
    /// The message that there is no local repository: no history model is
    /// attached.
    NoLocalRepository,
    /// The working tree's changes.
    WorkingTree,
    /// The commit history.
    History,
}

/// The body for a sidebar state: the message when no model is attached,
/// else the list of the mode.
pub open spec fn spec_sidebar_body(s: GitHistoryViewState) -> SidebarBody {
    if !s.model_attached {
        SidebarBody::NoLocalRepository
    } else {
        match s.mode {
            GitSidebarMode::WorkingTree => SidebarBody::WorkingTree,
            GitSidebarMode::History => SidebarBody::History,
        }
    }
}

/// The message key of the sidebar's title for the listed mode.
pub open spec fn spec_header_title_key(mode: GitSidebarMode) -> Seq<char> {
    match mode {
        GitSidebarMode::WorkingTree => "git-working-tree-title"@,
        GitSidebarMode::History => "git-history-title"@,
    }
}

/// The text of a working-tree section's header: its label and how many
/// changes it lists.
pub open spec fn spec_section_header_text(label: Seq<char>, count: nat) -> Seq<char> {
    label + " ("@ + decimal(count) + ")"@
}

/// The sections that the working-tree list shows, each with its number
/// of changes: staged first, then unstaged, each only when it has any.
pub open spec fn spec_working_tree_sections(staged: nat, unstaged: nat) -> Seq<(GitWorkingTreeArea, nat)> {
    (if staged > 0 {
        seq![(GitWorkingTreeArea::Staged, staged)]
    } else {
        Seq::empty()
    }) + (if unstaged > 0 {
        seq![(GitWorkingTreeArea::Unstaged, unstaged)]
    } else {
        Seq::empty()
    })
}

impl GitHistoryView {
    /// What to show under the header (see `spec_sidebar_body`).
    pub fn body(&self) -> (r: SidebarBody)
        ensures
            r == spec_sidebar_body(self@),
    {
        if !self.model_attached {
            SidebarBody::NoLocalRepository
        } else {
            match self.mode {
                GitSidebarMode::WorkingTree => SidebarBody::WorkingTree,
                GitSidebarMode::History => SidebarBody::History,
            }
        }
    }

    /// The message key of the title above the list (see
    /// `spec_header_title_key`).
    pub fn header_title_key(&self) -> (key: &'static str)
        ensures
            key@ == spec_header_title_key(self@.mode),
    {
        match self.mode {
            GitSidebarMode::WorkingTree => "git-working-tree-title",
            GitSidebarMode::History => "git-history-title",
        }
    }

    /// The action of a click on a working-tree change: open its diff on
    /// its side of the index, when there is a repository.
    pub fn working_tree_change_click(&self, area: GitWorkingTreeArea, change: &GitWorkingTreeChange) -> (r:
        Option<GitHistoryAction>)
        ensures
            match self@.repository_path {
                None => r is None,
                Some(p) => r matches Some(GitHistoryAction::OpenWorkingTreeDiff { repo_path, area: a, change: c })
                    && repo_path@ == p && a == area && c@ == change@,
            },
    {
        match &self.repository_path {
            Some(p) => Some(
                GitHistoryAction::OpenWorkingTreeDiff {
                    repo_path: p.clone(),
                    area,
                    change: copy_change(change),
                },
            ),
            None => None,
        }
    }

    /// The action of a click on a file of an expanded commit: open the
    /// file's diff in that commit, when there is a repository.
    pub fn commit_file_click(&self, commit: &GitHistoryCommit, file_path: &str) -> (r: Option<GitHistoryAction>)
        ensures
            match self@.repository_path {
                None => r is None,
                Some(p) => r matches Some(
                    GitHistoryAction::OpenFileDiff { repo_path, commit_hash, commit_subject, file_path: f },
                ) && repo_path@ == p && commit_hash@ == commit.hash@ && commit_subject@ == commit.subject@
                    && f@ == file_path@,
            },
    {
        match &self.repository_path {
            Some(p) => Some(
                GitHistoryAction::OpenFileDiff {
                    repo_path: p.clone(),
                    commit_hash: commit.hash.clone(),
                    commit_subject: commit.subject.clone(),
                    file_path: file_path.to_string(),
                },
            ),
            None => None,
        }
    }

    /// The repository line under the title: the repository's path, or
    /// nothing when there is none.
    pub fn header_repository_text(&self) -> (text: String)
        ensures
            text@ == match self@.repository_path {
                Some(p) => p,
                None => Seq::<char>::empty(),
            },
    {
        match &self.repository_path {
            Some(p) => p.clone(),
            None => String::new(),
        }
    }
}

/// The header of a working-tree section (see `spec_section_header_text`).
pub fn section_header_text(label: &str, count: usize) -> (text: String)
    ensures
        text@ == spec_section_header_text(label@, count as nat),
{
    let mut text = String::new();
    push_str(&mut text, label);
    push_str(&mut text, " (");
    push_decimal(&mut text, count);
    push_str(&mut text, ")");
    assert(Seq::<char>::empty() + label@ =~= label@);
    text
}

/// The sections of the working-tree list (see
/// `spec_working_tree_sections`).
pub fn working_tree_sections(changes: &GitWorkingTreeChanges) -> (sections: Vec<(GitWorkingTreeArea, usize)>)
    ensures
        sections@.map_values(|x: (GitWorkingTreeArea, usize)| (x.0, x.1 as nat))
            == spec_working_tree_sections(changes.staged.len() as nat, changes.unstaged.len() as nat),
{
    let mut sections: Vec<(GitWorkingTreeArea, usize)> = Vec::new();
    if changes.staged.len() > 0 {
        sections.push((GitWorkingTreeArea::Staged, changes.staged.len()));
    }
    if changes.unstaged.len() > 0 {
        sections.push((GitWorkingTreeArea::Unstaged, changes.unstaged.len()));
    }
    assert(sections@.map_values(|x: (GitWorkingTreeArea, usize)| (x.0, x.1 as nat))
        =~= spec_working_tree_sections(changes.staged.len() as nat, changes.unstaged.len() as nat));
    sections
}

/// The line under a commit's subject: short hash, author and date.
pub fn commit_metadata_line(commit: &GitHistoryCommit) -> (line: String)
    ensures
        line@ == commit.short_hash@ + " · "@ + commit.author@ + " · "@ + commit.committed_at@,
{
    let mut line = commit.short_hash.clone();
    push_str(&mut line, " · ");
    push_str(&mut line, commit.author.as_str());
    push_str(&mut line, " · ");
    push_str(&mut line, commit.committed_at.as_str());
    line
}

/// The row of a commit's file: its path and its added and deleted line
/// counts.
pub fn file_stats_line(file: &FileChangeEntry) -> (line: String)
    ensures
        line@ == file.path@ + "  +"@ + decimal(file.additions as nat) + "  -"@ + decimal(
            file.deletions as nat,
        ),
{
    let mut line = file.path.clone();
    push_str(&mut line, "  +");
    push_decimal(&mut line, file.additions);
    push_str(&mut line, "  -");
    push_decimal(&mut line, file.deletions);
    line
}

/// The rows that have hover states: the working-tree changes by side and
/// path, the commits by hash, and the files of commits whose file lists
/// are loaded, by commit hash and path.
pub struct HoverKeys {
    pub working_tree: Vec<(GitWorkingTreeArea, String)>,
    pub commits: Vec<String>,
    pub files: Vec<(String, String)>,
}

pub open spec fn area_keys(area: GitWorkingTreeArea, s: Seq<ChangeView>) -> Seq<(GitWorkingTreeArea, Seq<char>)> {
    Seq::new(s.len(), |i: int| (area, s[i].path))
}

pub open spec fn commit_keys(s: Seq<CommitView>) -> Seq<Seq<char>> {
    Seq::new(s.len(), |i: int| s[i].hash)
}

/// The (commit hash, file path) pairs of the loaded file lists, in list
/// order.
pub open spec fn file_keys(commits: Seq<CommitView>, files: Map<Seq<char>, Seq<FileView>>) -> Seq<
    (Seq<char>, Seq<char>),
>
    decreases commits.len(),
{
    if commits.len() == 0 {
        Seq::empty()
    } else {
        let h = commits.last().hash;
        file_keys(commits.drop_last(), files) + if files.contains_key(h) {
            Seq::new(files[h].len(), |i: int| (h, files[h][i].path))
        } else {
            Seq::empty()
        }
    }
}

pub open spec fn pair_views(s: Seq<(GitWorkingTreeArea, String)>) -> Seq<(GitWorkingTreeArea, Seq<char>)> {
    s.map_values(|p: (GitWorkingTreeArea, String)| (p.0, p.1@))
}

pub open spec fn string_pair_views(s: Seq<(String, String)>) -> Seq<(Seq<char>, Seq<char>)> {
    s.map_values(|p: (String, String)| (p.0@, p.1@))
}

fn push_area_keys(
    out: &mut Vec<(GitWorkingTreeArea, String)>,
    area: GitWorkingTreeArea,
    changes: &Vec<GitWorkingTreeChange>,
)
    ensures
        pair_views(final(out)@) == pair_views(old(out)@) + area_keys(area, change_views(changes@)),
{
    let ghost start = pair_views(out@);
    let mut k: usize = 0;
    while k < changes.len()
        invariant
            k <= changes.len(),
            pair_views(out@) == start + area_keys(area, change_views(changes@)).take(k as int),
        decreases changes.len() - k,
    {
        let ghost before = pair_views(out@);
        out.push((area, copy_string(&changes[k].path)));
        assert(pair_views(out@) =~= before.push((area, changes@[k as int].path@)));
        assert(area_keys(area, change_views(changes@)).take(k + 1) =~= area_keys(
            area,
            change_views(changes@),
        ).take(k as int).push((area, changes@[k as int].path@)));
        k = k + 1;
    }
    assert(area_keys(area, change_views(changes@)).take(changes.len() as int) =~= area_keys(
        area,
        change_views(changes@),
    ));
}

/// The keys of the rows that have hover states (see `HoverKeys`).
pub fn hover_keys(model: &GitHistoryModel) -> (keys: HoverKeys)
    ensures
        pair_views(keys.working_tree@) == area_keys(GitWorkingTreeArea::Staged, model@.staged)
            + area_keys(GitWorkingTreeArea::Unstaged, model@.unstaged),
        keys.commits@.map_values(|h: String| h@) == commit_keys(model@.commits),
        string_pair_views(keys.files@) == file_keys(model@.commits, model@.commit_files),
{
    let changes = model.working_tree_changes();
    let mut working_tree: Vec<(GitWorkingTreeArea, String)> = Vec::new();
    assert(pair_views(working_tree@) =~= Seq::<(GitWorkingTreeArea, Seq<char>)>::empty());
    push_area_keys(&mut working_tree, GitWorkingTreeArea::Staged, &changes.staged);
    push_area_keys(&mut working_tree, GitWorkingTreeArea::Unstaged, &changes.unstaged);
    assert(Seq::<(GitWorkingTreeArea, Seq<char>)>::empty() + area_keys(
        GitWorkingTreeArea::Staged,
        model@.staged,
    ) =~= area_keys(GitWorkingTreeArea::Staged, model@.staged));
    let commits = model.commits();
    let ghost cs = model@.commits;
    let ghost files_map = model@.commit_files;
    let mut hashes: Vec<String> = Vec::new();
    let mut files: Vec<(String, String)> = Vec::new();
    let mut k: usize = 0;
    assert(cs.take(0) =~= Seq::<CommitView>::empty());
    while k < commits.len()
        invariant
            commit_views(commits@) == cs,
            cs == model@.commits,
            files_map == model@.commit_files,
            k <= commits.len(),
            hashes@.map_values(|h: String| h@) == commit_keys(cs).take(k as int),
            string_pair_views(files@) == file_keys(cs.take(k as int), files_map),
        decreases commits.len() - k,
    {
        let c = &commits[k];
        assert(c@ == cs[k as int]);
        let ghost before_h = hashes@.map_values(|h: String| h@);
        hashes.push(copy_string(&c.hash));
        assert(hashes@.map_values(|h: String| h@) =~= before_h.push(c.hash@));
        assert(commit_keys(cs).take(k + 1) =~= commit_keys(cs).take(k as int).push(c.hash@));
        let ghost before_f = string_pair_views(files@);
        assert(cs.take(k + 1).drop_last() == cs.take(k as int));
        assert(cs.take(k + 1).last() == c@);
        match model.commit_files(c.hash.as_str()) {
            Some(list) => {
                let ghost fl = files_map[c.hash@];
                let mut j: usize = 0;
                while j < list.len()
                    invariant
                        j <= list.len(),
                        file_views(list@) == fl,
                        string_pair_views(files@) == before_f + Seq::new(
                            fl.len(),
                            |i: int| (c.hash@, fl[i].path),
                        ).take(j as int),
                    decreases list.len() - j,
                {
                    let ghost bf = string_pair_views(files@);
                    files.push((copy_string(&c.hash), copy_string(&list[j].path)));
                    assert(string_pair_views(files@) =~= bf.push((c.hash@, list@[j as int].path@)));
                    assert(fl[j as int] == list@[j as int]@);
                    assert(Seq::new(fl.len(), |i: int| (c.hash@, fl[i].path)).take(j + 1) =~= Seq::new(
                        fl.len(),
                        |i: int| (c.hash@, fl[i].path),
                    ).take(j as int).push((c.hash@, fl[j as int].path)));
                    j = j + 1;
                }
                assert(Seq::new(fl.len(), |i: int| (c.hash@, fl[i].path)).take(list.len() as int)
                    =~= Seq::new(fl.len(), |i: int| (c.hash@, fl[i].path)));
            },
            None => {
                assert(before_f + Seq::<(Seq<char>, Seq<char>)>::empty() =~= before_f);
            },
        }
        k = k + 1;
    }
    assert(cs.take(commits.len() as int) == cs);
    assert(commit_keys(cs).take(commits.len() as int) == commit_keys(cs));
    HoverKeys { working_tree, commits: hashes, files }
}

/// Switching the list twice shows the list of before, and a sidebar with
/// a model reads the history whenever it switches to it.
pub proof fn lemma_toggle_mode_twice_restores(s: GitHistoryViewState)
    ensures
        ({
            let (t, c1) = spec_handle_action(s, GitHistoryAction::ToggleMode);
            let (u, c2) = spec_handle_action(t, GitHistoryAction::ToggleMode);
            &&& u == s
            &&& t.mode != s.mode
            &&& (t.mode == GitSidebarMode::History && s.model_attached ==> c1.contains(
                ViewCommandView::EnsureHistoryLoaded,
            ))
            &&& (u.mode == GitSidebarMode::History && t.model_attached ==> c2.contains(
                ViewCommandView::EnsureHistoryLoaded,
            ))
        }),
{
    let (t, c1) = spec_handle_action(s, GitHistoryAction::ToggleMode);
    let (u, c2) = spec_handle_action(t, GitHistoryAction::ToggleMode);
    if t.mode == GitSidebarMode::History && s.model_attached {
        assert(c1[1] == ViewCommandView::EnsureHistoryLoaded);
    }
    if u.mode == GitSidebarMode::History && t.model_attached {
        assert(c2[1] == ViewCommandView::EnsureHistoryLoaded);
    }
}

/// Toggling a commit twice leaves the expanded commits as they were; the
/// toggle that expands it asks for its files.
pub proof fn lemma_toggle_commit_twice_restores(s: GitHistoryViewState, hash: String)
    requires
        s.model_attached,
    ensures
        ({
            let a = GitHistoryAction::ToggleCommit { hash };
            let (t, c1) = spec_handle_action(s, a);
            let (u, _) = spec_handle_action(t, a);
            &&& u == s
            &&& t.expanded_commits.contains(hash@) != s.expanded_commits.contains(hash@)
            &&& (t.expanded_commits.contains(hash@) ==> c1[0] == ViewCommandView::LoadCommitFiles {
                hash: hash@,
            })
        }),
{
    let a = GitHistoryAction::ToggleCommit { hash };
    let (t, _) = spec_handle_action(s, a);
    let (u, _) = spec_handle_action(t, a);
    assert(u.expanded_commits =~= s.expanded_commits);
}

/// Showing the repository that is shown, under any spelling of its path,
/// changes nothing; showing another one forgets the expanded commits and
/// asks for its model.
pub proof fn lemma_set_repository_resets_only_on_change(s: GitHistoryViewState, path: Option<Seq<char>>)
    ensures
        ({
            let (t, c) = spec_set_repository(s, path);
            &&& (same_repository(s.repository_path, path) ==> t == s && c.len() == 0)
            &&& (!same_repository(s.repository_path, path) ==> {
                &&& t.repository_path == path
                &&& t.expanded_commits == Set::<Seq<char>>::empty()
                &&& !t.model_attached
                &&& (path matches Some(p) ==> c.last() == ViewCommandView::AttachModel {
                    repository_path: p,
                })
            })
            &&& spec_set_repository(t, path) == (t, Seq::<ViewCommandView>::empty())
        }),
{
}

/// Each hash asked for on a model update is that of a listed, expanded
/// commit with no files loaded, loading or failed.
pub proof fn lemma_files_asked_only_when_needed(view: GitHistoryViewState, model: GitHistoryState, k: int)
    requires
        0 <= k < spec_expanded_commit_files_to_load(view, model).len(),
    ensures
        exists|i: int|
            0 <= i < model.commits.len() && #[trigger] model.commits[i].hash
                == spec_expanded_commit_files_to_load(view, model)[k] && needs_files(
                view,
                model,
                model.commits[i],
            ),
    decreases model.commits.len(),
{
    let rest = GitHistoryState { commits: model.commits.drop_last(), ..model };
    let before = spec_expanded_commit_files_to_load(view, rest);
    if k < before.len() {
        lemma_files_asked_only_when_needed(view, rest, k);
        let i = choose|i: int|
            0 <= i < rest.commits.len() && #[trigger] rest.commits[i].hash == before[k] && needs_files(
                view,
                rest,
                rest.commits[i],
            );
        assert(model.commits[i] == rest.commits[i]);
    } else {
        let i = model.commits.len() - 1;
        assert(model.commits[i] == model.commits.last());
    }
}

/// Each hash is asked for at most once on a model update, however often
/// it is listed.
pub proof fn lemma_files_to_load_unique(view: GitHistoryViewState, model: GitHistoryState)
    ensures
        spec_expanded_commit_files_to_load(view, model).no_duplicates(),
    decreases model.commits.len(),
{
    if model.commits.len() > 0 {
        lemma_files_to_load_unique(view, GitHistoryState { commits: model.commits.drop_last(), ..model });
    }
}

/// The hash of every listed, expanded commit whose files still have to be
/// asked for is asked for on a model update.
pub proof fn lemma_files_to_load_complete(view: GitHistoryViewState, model: GitHistoryState, i: int)
    requires
        0 <= i < model.commits.len(),
        needs_files(view, model, model.commits[i]),
    ensures
        spec_expanded_commit_files_to_load(view, model).contains(model.commits[i].hash),
    decreases model.commits.len(),
{
    let rest = GitHistoryState { commits: model.commits.drop_last(), ..model };
    let before = spec_expanded_commit_files_to_load(view, rest);
    let all = spec_expanded_commit_files_to_load(view, model);
    if i < model.commits.len() - 1 {
        assert(rest.commits[i] == model.commits[i]);
        lemma_files_to_load_complete(view, rest, i);
        let k = choose|k: int| 0 <= k < before.len() && before[k] == model.commits[i].hash;
        assert(all[k] == before[k]);
    } else {
        assert(model.commits[i] == model.commits.last());
        if before.contains(model.commits[i].hash) {
            let k = choose|k: int| 0 <= k < before.len() && before[k] == model.commits[i].hash;
            assert(all[k] == before[k]);
        } else {
            assert(all[before.len() as int] == model.commits[i].hash);
        }
    }
}

} // verus!
