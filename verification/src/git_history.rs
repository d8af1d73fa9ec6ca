//! The git sidebar: the model that caches the working tree and the commit
//! history of one repository, and the view state that decides what the
//! sidebar asks of it.
//!
//! Loading runs elsewhere: every operation returns the commands to carry
//! out (events to emit, requests to start or abort), and the result of a
//! request comes back through the matching `*_loaded` method, tagged with
//! the generation that the request was started with. A result whose
//! generation is no longer current is dropped.
use vstd::prelude::*;
use vstd::hash_map::StringHashMap;

use crate::git::{
    change_views, commit_views, ChangeView, CommitView, FileChangeEntry, GitHistoryCommit,
    GitHistoryPage, GitWorkingTreeChanges,
};

verus! {

/// The number of commits that one history request asks for.
pub const PAGE_SIZE: usize = 50;

/// A file of a commit's file list, as plain values.
pub struct FileView {
    pub path: Seq<char>,
    pub additions: usize,
    pub deletions: usize,
}

impl View for FileChangeEntry {
    type V = FileView;

    open spec fn view(&self) -> FileView {
        FileView { path: self.path@, additions: self.additions, deletions: self.deletions }
    }
}

pub open spec fn file_views(s: Seq<FileChangeEntry>) -> Seq<FileView> {
    s.map_values(|f: FileChangeEntry| f@)
}

pub open spec fn opt_string_view(o: Option<String>) -> Option<Seq<char>> {
    match o {
        Some(s) => Some(s@),
        None => None,
    }
}

/// The next request generation; it wraps around at the top of `u64`.
pub open spec fn next_generation(g: u64) -> u64 {
    if g == u64::MAX {
        0
    } else {
        (g + 1) as u64
    }
}

pub(crate) fn bump(g: u64) -> (r: u64)
    ensures
        r == next_generation(g),
{
    if g == u64::MAX {
        0
    } else {
        g + 1
    }
}

/// What the history model asks its owner to do.
pub enum GitHistoryCommand {
    /// Tell the subscribers that the model changed.
    EmitUpdated,
    /// Abort the working-tree request in flight.
    AbortWorkingTreeRequest,
    /// Abort the history request in flight.
    AbortHistoryRequest,
    /// Read the working tree's changes; answer with `working_tree_loaded`.
    LoadWorkingTree { generation: u64 },
    /// Read the first `PAGE_SIZE` commits; answer with `history_page_loaded`.
    LoadHistory { generation: u64 },
    /// Read `PAGE_SIZE` commits after the first `skip`; answer with
    /// `more_history_loaded`.
    LoadMoreHistory { generation: u64, skip: usize },
    /// Read the files of commit `hash`; answer with `commit_files_loaded`.
    LoadCommitFiles { hash: String },
}

/// A command as plain values.
pub enum CommandView {
    EmitUpdated,
    AbortWorkingTreeRequest,
    AbortHistoryRequest,
    LoadWorkingTree { generation: u64 },
    LoadHistory { generation: u64 },
    LoadMoreHistory { generation: u64, skip: usize },
    LoadCommitFiles { hash: Seq<char> },
}

impl View for GitHistoryCommand {
    type V = CommandView;

    open spec fn view(&self) -> CommandView {
        match self {
            GitHistoryCommand::EmitUpdated => CommandView::EmitUpdated,
            GitHistoryCommand::AbortWorkingTreeRequest => CommandView::AbortWorkingTreeRequest,
            GitHistoryCommand::AbortHistoryRequest => CommandView::AbortHistoryRequest,
            GitHistoryCommand::LoadWorkingTree { generation } => CommandView::LoadWorkingTree {
                generation: *generation,
            },
            GitHistoryCommand::LoadHistory { generation } => CommandView::LoadHistory {
                generation: *generation,
            },
            GitHistoryCommand::LoadMoreHistory { generation, skip } => CommandView::LoadMoreHistory {
                generation: *generation,
                skip: *skip,
            },
            GitHistoryCommand::LoadCommitFiles { hash } => CommandView::LoadCommitFiles {
                hash: hash@,
            },
        }
    }
}

pub open spec fn command_views(s: Seq<GitHistoryCommand>) -> Seq<CommandView> {
    s.map_values(|c: GitHistoryCommand| c@)
}

/// The read-only cache of one repository's working tree and history.
pub struct GitHistoryModel {
    repo_path: String,
    working_tree_changes: GitWorkingTreeChanges,
    working_tree_loading: bool,
    working_tree_error: Option<String>,
    working_tree_request_generation: u64,
    commits: Vec<GitHistoryCommit>,
    history_loaded: bool,
    has_more: bool,
    loading: bool,
    error: Option<String>,
    commit_files: StringHashMap<Vec<FileChangeEntry>>,
    loading_files: StringHashMap<()>,
    file_errors: StringHashMap<String>,
    request_generation: u64,
}

/// The model as plain values. A request is in flight exactly while its
/// `loading` flag is set.
pub struct GitHistoryState {
    pub repo_path: Seq<char>,
    pub staged: Seq<ChangeView>,
    pub unstaged: Seq<ChangeView>,
    pub working_tree_loading: bool,
    pub working_tree_error: Option<Seq<char>>,
    pub working_tree_generation: u64,
    pub commits: Seq<CommitView>,
    pub history_loaded: bool,
    pub has_more: bool,
    pub loading: bool,
    pub error: Option<Seq<char>>,
    pub commit_files: Map<Seq<char>, Seq<FileView>>,
    pub loading_files: Set<Seq<char>>,
    pub file_errors: Map<Seq<char>, Seq<char>>,
    pub generation: u64,
}

impl View for GitHistoryModel {
    type V = GitHistoryState;

    closed spec fn view(&self) -> GitHistoryState {
        GitHistoryState {
            repo_path: self.repo_path@,
            staged: change_views(self.working_tree_changes.staged@),
            unstaged: change_views(self.working_tree_changes.unstaged@),
            working_tree_loading: self.working_tree_loading,
            working_tree_error: opt_string_view(self.working_tree_error),
            working_tree_generation: self.working_tree_request_generation,
            commits: commit_views(self.commits@),
            history_loaded: self.history_loaded,
            has_more: self.has_more,
            loading: self.loading,
            error: opt_string_view(self.error),
            commit_files: self.commit_files@.map_values(|v: Vec<FileChangeEntry>| file_views(v@)),
            loading_files: self.loading_files@.dom(),
            file_errors: self.file_errors@.map_values(|e: String| e@),
            generation: self.request_generation,
        }
    }
}

/// The state of a model just made for `repo_path`, before it loads anything.
pub open spec fn initial_state(repo_path: Seq<char>) -> GitHistoryState {
    GitHistoryState {
        repo_path,
        staged: Seq::empty(),
        unstaged: Seq::empty(),
        working_tree_loading: false,
        working_tree_error: None,
        working_tree_generation: 0,
        commits: Seq::empty(),
        history_loaded: false,
        has_more: false,
        loading: false,
        error: None,
        commit_files: Map::empty(),
        loading_files: Set::empty(),
        file_errors: Map::empty(),
        generation: 0,
    }
}

/// Starts reading the working tree anew: the request in flight, if any, is
/// aborted and superseded by one with the next generation.
pub open spec fn spec_refresh_working_tree(s: GitHistoryState) -> (GitHistoryState, Seq<CommandView>) {
    let g = next_generation(s.working_tree_generation);
    (
        GitHistoryState {
            working_tree_generation: g,
            working_tree_loading: true,
            working_tree_error: None,
            ..s
        },
        (if s.working_tree_loading {
            seq![CommandView::AbortWorkingTreeRequest]
        } else {
            Seq::empty()
        }) + seq![CommandView::EmitUpdated, CommandView::LoadWorkingTree { generation: g }],
    )
}

/// The outcome of a working-tree request of `generation`: dropped unless
/// it is the current generation; otherwise the changes, or no changes and
/// the error.
pub open spec fn spec_working_tree_loaded(
    s: GitHistoryState,
    generation: u64,
    result: Result<(Seq<ChangeView>, Seq<ChangeView>), Seq<char>>,
) -> (GitHistoryState, Seq<CommandView>) {
    if generation != s.working_tree_generation {
        (s, Seq::empty())
    } else {
        let t = match result {
            Ok((staged, unstaged)) => GitHistoryState {
                working_tree_loading: false,
                staged,
                unstaged,
                ..s
            },
            Err(e) => GitHistoryState {
                working_tree_loading: false,
                staged: Seq::empty(),
                unstaged: Seq::empty(),
                working_tree_error: Some(e),
                ..s
            },
        };
        (t, seq![CommandView::EmitUpdated])
    }
}

/// Starts reading the first page of history anew.
pub open spec fn spec_refresh_history(s: GitHistoryState) -> (GitHistoryState, Seq<CommandView>) {
    let g = next_generation(s.generation);
    (
        GitHistoryState { generation: g, loading: true, history_loaded: true, error: None, ..s },
        (if s.loading {
            seq![CommandView::AbortHistoryRequest]
        } else {
            Seq::empty()
        }) + seq![CommandView::EmitUpdated, CommandView::LoadHistory { generation: g }],
    )
}

/// Reads the history, unless it was asked for before.
pub open spec fn spec_ensure_history_loaded(s: GitHistoryState) -> (GitHistoryState, Seq<CommandView>) {
    if s.history_loaded {
        (s, Seq::empty())
    } else {
        spec_refresh_history(s)
    }
}

/// The outcome of a first-page request: dropped unless current; a page
/// replaces the commits and forgets the loaded file lists and their
/// errors; an error empties the history.
pub open spec fn spec_history_page_loaded(
    s: GitHistoryState,
    generation: u64,
    result: Result<(Seq<CommitView>, bool), Seq<char>>,
) -> (GitHistoryState, Seq<CommandView>) {
    if generation != s.generation {
        (s, Seq::empty())
    } else {
        let t = match result {
            Ok((commits, has_more)) => GitHistoryState {
                loading: false,
                commits,
                has_more,
                commit_files: Map::empty(),
                file_errors: Map::empty(),
                ..s
            },
            Err(e) => GitHistoryState {
                loading: false,
                commits: Seq::empty(),
                has_more: false,
                error: Some(e),
                ..s
            },
        };
        (t, seq![CommandView::EmitUpdated])
    }
}

/// Asks for the page after the loaded commits, unless a history request
/// is in flight or there is nothing more.
pub open spec fn spec_load_more(s: GitHistoryState) -> (GitHistoryState, Seq<CommandView>) {
    if s.loading || !s.has_more {
        (s, Seq::empty())
    } else {
        let g = next_generation(s.generation);
        (
            GitHistoryState { generation: g, loading: true, error: None, ..s },
            seq![
                CommandView::EmitUpdated,
                CommandView::LoadMoreHistory { generation: g, skip: s.commits.len() as usize },
            ],
        )
    }
}

/// The outcome of a next-page request: dropped unless current; a page is
/// appended; an error is kept beside the commits already loaded.
pub open spec fn spec_more_history_loaded(
    s: GitHistoryState,
    generation: u64,
    result: Result<(Seq<CommitView>, bool), Seq<char>>,
) -> (GitHistoryState, Seq<CommandView>) {
    if generation != s.generation {
        (s, Seq::empty())
    } else {
        let t = match result {
            Ok((commits, has_more)) => GitHistoryState {
                loading: false,
                commits: s.commits + commits,
                has_more,
                ..s
            },
            Err(e) => GitHistoryState { loading: false, error: Some(e), ..s },
        };
        (t, seq![CommandView::EmitUpdated])
    }
}

/// Asks for the files of commit `hash`, unless they are loaded or loading;
/// an earlier error for it is forgotten.
pub open spec fn spec_load_commit_files(s: GitHistoryState, hash: Seq<char>) -> (GitHistoryState, Seq<
    CommandView,
>) {
    if s.commit_files.contains_key(hash) || s.loading_files.contains(hash) {
        (s, Seq::empty())
    } else {
        (
            GitHistoryState {
                loading_files: s.loading_files.insert(hash),
                file_errors: s.file_errors.remove(hash),
                ..s
            },
            seq![CommandView::EmitUpdated, CommandView::LoadCommitFiles { hash }],
        )
    }
}

/// The outcome of the file-list request for `hash`.
pub open spec fn spec_commit_files_loaded(
    s: GitHistoryState,
    hash: Seq<char>,
    result: Result<Seq<FileView>, Seq<char>>,
) -> (GitHistoryState, Seq<CommandView>) {
    let t = match result {
        Ok(files) => GitHistoryState {
            loading_files: s.loading_files.remove(hash),
            file_errors: s.file_errors.remove(hash),
            commit_files: s.commit_files.insert(hash, files),
            ..s
        },
        Err(e) => GitHistoryState {
            loading_files: s.loading_files.remove(hash),
            file_errors: s.file_errors.insert(hash, e),
            ..s
        },
    };
    (t, seq![CommandView::EmitUpdated])
}

/// A change on disk: the working tree is read again unless the update is
/// empty, and the history too when a commit changed and the history was
/// asked for.
pub open spec fn spec_repository_updated(
    s: GitHistoryState,
    update_is_empty: bool,
    commit_updated: bool,
) -> (GitHistoryState, Seq<CommandView>) {
    let a = if update_is_empty {
        (s, Seq::<CommandView>::empty())
    } else {
        spec_refresh_working_tree(s)
    };
    if commit_updated && a.0.history_loaded {
        let b = spec_refresh_history(a.0);
        (b.0, a.1 + b.1)
    } else {
        a
    }
}

/// The requests to abort when the model goes away.
pub open spec fn spec_shutdown(s: GitHistoryState) -> Seq<CommandView> {
    (if s.loading {
        seq![CommandView::AbortHistoryRequest]
    } else {
        Seq::empty()
    }) + (if s.working_tree_loading {
        seq![CommandView::AbortWorkingTreeRequest]
    } else {
        Seq::empty()
    })
}

pub open spec fn changes_result_view(r: Result<GitWorkingTreeChanges, String>) -> Result<
    (Seq<ChangeView>, Seq<ChangeView>),
    Seq<char>,
> {
    match r {
        Ok(c) => Ok((change_views(c.staged@), change_views(c.unstaged@))),
        Err(e) => Err(e@),
    }
}

pub open spec fn page_result_view(r: Result<GitHistoryPage, String>) -> Result<
    (Seq<CommitView>, bool),
    Seq<char>,
> {
    match r {
        Ok(p) => Ok((commit_views(p.commits@), p.has_more)),
        Err(e) => Err(e@),
    }
}

pub open spec fn files_result_view(r: Result<Vec<FileChangeEntry>, String>) -> Result<
    Seq<FileView>,
    Seq<char>,
> {
    match r {
        Ok(f) => Ok(file_views(f@)),
        Err(e) => Err(e@),
    }
}

impl GitHistoryModel {
    /// A model for `repo_path` that starts reading its working tree.
    pub fn new(repo_path: String) -> (r: (GitHistoryModel, Vec<GitHistoryCommand>))
        ensures
            (r.0@, command_views(r.1@)) == spec_refresh_working_tree(initial_state(repo_path@)),
    {
        let mut model = GitHistoryModel {
            repo_path,
            working_tree_changes: GitWorkingTreeChanges::default(),
            working_tree_loading: false,
            working_tree_error: None,
            working_tree_request_generation: 0,
            commits: Vec::new(),
            history_loaded: false,
            has_more: false,
            loading: false,
            error: None,
            commit_files: StringHashMap::new(),
            loading_files: StringHashMap::new(),
            file_errors: StringHashMap::new(),
            request_generation: 0,
        };
        assert(model@.staged =~= Seq::<ChangeView>::empty());
        assert(model@.unstaged =~= Seq::<ChangeView>::empty());
        assert(model@.commits =~= Seq::<CommitView>::empty());
        assert(model@.commit_files =~= Map::<Seq<char>, Seq<FileView>>::empty());
        assert(model@.loading_files =~= Set::<Seq<char>>::empty());
        assert(model@.file_errors =~= Map::<Seq<char>, Seq<char>>::empty());
        assert(model@ =~= initial_state(repo_path@));
        let commands = model.refresh_working_tree();
        (model, commands)
    }

    pub fn working_tree_changes(&self) -> (r: &GitWorkingTreeChanges)
        ensures
            change_views(r.staged@) == self@.staged,
            change_views(r.unstaged@) == self@.unstaged,
    {
        &self.working_tree_changes
    }

    pub fn is_working_tree_loading(&self) -> (r: bool)
        ensures
            r == self@.working_tree_loading,
    {
        self.working_tree_loading
    }

    pub fn working_tree_error(&self) -> (r: Option<&str>)
        ensures
            match r {
                Some(e) => self@.working_tree_error == Some(e@),
                None => self@.working_tree_error is None,
            },
    {
        match &self.working_tree_error {
            Some(e) => Some(e.as_str()),
            None => None,
        }
    }

    pub fn commits(&self) -> (r: &[GitHistoryCommit])
        ensures
            commit_views(r@) == self@.commits,
    {
        self.commits.as_slice()
    }

    pub fn has_more(&self) -> (r: bool)
        ensures
            r == self@.has_more,
    {
        self.has_more
    }

    pub fn is_loading(&self) -> (r: bool)
        ensures
            r == self@.loading,
    {
        self.loading
    }

    pub fn error(&self) -> (r: Option<&str>)
        ensures
            match r {
                Some(e) => self@.error == Some(e@),
                None => self@.error is None,
            },
    {
        match &self.error {
            Some(e) => Some(e.as_str()),
            None => None,
        }
    }

    pub fn commit_files(&self, hash: &str) -> (r: Option<&Vec<FileChangeEntry>>)
        ensures
            match r {
                Some(files) => self@.commit_files.contains_key(hash@) && file_views(files@)
                    == self@.commit_files[hash@],
                None => !self@.commit_files.contains_key(hash@),
            },
    {
        self.commit_files.get(hash)
    }

    pub fn is_loading_files(&self, hash: &str) -> (r: bool)
        ensures
            r == self@.loading_files.contains(hash@),
    {
        self.loading_files.contains_key(hash)
    }

    pub fn commit_file_error(&self, hash: &str) -> (r: Option<&str>)
        ensures
            match r {
                Some(e) => self@.file_errors.contains_key(hash@) && self@.file_errors[hash@] == e@,
                None => !self@.file_errors.contains_key(hash@),
            },
    {
        match self.file_errors.get(hash) {
            Some(e) => Some(e.as_str()),
            None => None,
        }
    }

    /// Reads the working tree anew (see `spec_refresh_working_tree`).
    pub fn refresh_working_tree(&mut self) -> (commands: Vec<GitHistoryCommand>)
        ensures
            (final(self)@, command_views(commands@)) == spec_refresh_working_tree(old(self)@),
    {
        let mut commands: Vec<GitHistoryCommand> = Vec::new();
        if self.working_tree_loading {
            commands.push(GitHistoryCommand::AbortWorkingTreeRequest);
        }
        self.working_tree_request_generation = bump(self.working_tree_request_generation);
        self.working_tree_loading = true;
        self.working_tree_error = None;
        commands.push(GitHistoryCommand::EmitUpdated);
        commands.push(
            GitHistoryCommand::LoadWorkingTree { generation: self.working_tree_request_generation },
        );
        assert(command_views(commands@) =~= spec_refresh_working_tree(old(self)@).1);
        assert(self@ =~= spec_refresh_working_tree(old(self)@).0);
        commands
    }

    /// Takes in the result of the working-tree request of `generation`.
    pub fn working_tree_loaded(
        &mut self,
        generation: u64,
        result: Result<GitWorkingTreeChanges, String>,
    ) -> (commands: Vec<GitHistoryCommand>)
        ensures
            (final(self)@, command_views(commands@)) == spec_working_tree_loaded(
                old(self)@,
                generation,
                changes_result_view(result),
            ),
    {
        let mut commands: Vec<GitHistoryCommand> = Vec::new();
        if generation != self.working_tree_request_generation {
            assert(command_views(commands@) =~= Seq::<CommandView>::empty());
            return commands;
        }
        self.working_tree_loading = false;
        match result {
            Ok(changes) => {
                self.working_tree_changes = changes;
            },
            Err(error) => {
                self.working_tree_changes = GitWorkingTreeChanges::default();
                assert(change_views(self.working_tree_changes.staged@) =~= Seq::<ChangeView>::empty());
                assert(change_views(self.working_tree_changes.unstaged@) =~= Seq::<ChangeView>::empty());
                self.working_tree_error = Some(error);
            },
        }
        commands.push(GitHistoryCommand::EmitUpdated);
        assert(command_views(commands@) =~= seq![CommandView::EmitUpdated]);
        assert(self@ =~= spec_working_tree_loaded(old(self)@, generation, changes_result_view(result)).0);
        commands
    }

    /// Reads the history unless it was asked for before.
    pub fn ensure_history_loaded(&mut self) -> (commands: Vec<GitHistoryCommand>)
        ensures
            (final(self)@, command_views(commands@)) == spec_ensure_history_loaded(old(self)@),
    {
        if !self.history_loaded {
            self.refresh_history()
        } else {
            let commands: Vec<GitHistoryCommand> = Vec::new();
            assert(command_views(commands@) =~= Seq::<CommandView>::empty());
            commands
        }
    }

    /// Reads the first page of history anew (see `spec_refresh_history`).
    pub fn refresh_history(&mut self) -> (commands: Vec<GitHistoryCommand>)
        ensures
            (final(self)@, command_views(commands@)) == spec_refresh_history(old(self)@),
    {
        let mut commands: Vec<GitHistoryCommand> = Vec::new();
        if self.loading {
            commands.push(GitHistoryCommand::AbortHistoryRequest);
        }
        self.request_generation = bump(self.request_generation);
        self.loading = true;
        self.history_loaded = true;
        self.error = None;
        commands.push(GitHistoryCommand::EmitUpdated);
        commands.push(GitHistoryCommand::LoadHistory { generation: self.request_generation });
        assert(command_views(commands@) =~= spec_refresh_history(old(self)@).1);
        assert(self@ =~= spec_refresh_history(old(self)@).0);
        commands
    }

    /// Takes in the result of the first-page request of `generation`.
    pub fn history_page_loaded(&mut self, generation: u64, result: Result<GitHistoryPage, String>) -> (commands:
        Vec<GitHistoryCommand>)
        ensures
            (final(self)@, command_views(commands@)) == spec_history_page_loaded(
                old(self)@,
                generation,
                page_result_view(result),
            ),
    {
        let mut commands: Vec<GitHistoryCommand> = Vec::new();
        if generation != self.request_generation {
            assert(command_views(commands@) =~= Seq::<CommandView>::empty());
            return commands;
        }
        self.loading = false;
        match result {
            Ok(page) => {
                self.commits = page.commits;
                self.has_more = page.has_more;
                self.commit_files.clear();
                self.file_errors.clear();
                assert(self@.commit_files =~= Map::<Seq<char>, Seq<FileView>>::empty());
                assert(self@.file_errors =~= Map::<Seq<char>, Seq<char>>::empty());
            },
            Err(error) => {
                self.commits = Vec::new();
                self.has_more = false;
                self.error = Some(error);
                assert(self@.commits =~= Seq::<CommitView>::empty());
            },
        }
        commands.push(GitHistoryCommand::EmitUpdated);
        assert(command_views(commands@) =~= seq![CommandView::EmitUpdated]);
        assert(self@ =~= spec_history_page_loaded(old(self)@, generation, page_result_view(result)).0);
        commands
    }

    /// Asks for the next page of history (see `spec_load_more`).
    pub fn load_more(&mut self) -> (commands: Vec<GitHistoryCommand>)
        ensures
            (final(self)@, command_views(commands@)) == spec_load_more(old(self)@),
    {
        let mut commands: Vec<GitHistoryCommand> = Vec::new();
        if self.loading || !self.has_more {
            assert(command_views(commands@) =~= Seq::<CommandView>::empty());
            return commands;
        }
        self.request_generation = bump(self.request_generation);
        let skip = self.commits.len();
        self.loading = true;
        self.error = None;
        commands.push(GitHistoryCommand::EmitUpdated);
        commands.push(
            GitHistoryCommand::LoadMoreHistory { generation: self.request_generation, skip },
        );
        assert(command_views(commands@) =~= spec_load_more(old(self)@).1);
        assert(self@ =~= spec_load_more(old(self)@).0);
        commands
    }

    /// Takes in the result of the next-page request of `generation`.
    pub fn more_history_loaded(&mut self, generation: u64, result: Result<GitHistoryPage, String>) -> (commands:
        Vec<GitHistoryCommand>)
        ensures
            (final(self)@, command_views(commands@)) == spec_more_history_loaded(
                old(self)@,
                generation,
                page_result_view(result),
            ),
    {
        let mut commands: Vec<GitHistoryCommand> = Vec::new();
        if generation != self.request_generation {
            assert(command_views(commands@) =~= Seq::<CommandView>::empty());
            return commands;
        }
        self.loading = false;
        match result {
            Ok(page) => {
                let ghost before = self.commits@;
                let mut more = page.commits;
                self.commits.append(&mut more);
                assert(commit_views(self.commits@) =~= commit_views(before) + commit_views(
                    page.commits@,
                ));
                self.has_more = page.has_more;
            },
            Err(error) => {
                self.error = Some(error);
            },
        }
        commands.push(GitHistoryCommand::EmitUpdated);
        assert(command_views(commands@) =~= seq![CommandView::EmitUpdated]);
        assert(self@ =~= spec_more_history_loaded(old(self)@, generation, page_result_view(result)).0);
        commands
    }

    /// Asks for the files of commit `hash` (see `spec_load_commit_files`).
    pub fn load_commit_files(&mut self, hash: String) -> (commands: Vec<GitHistoryCommand>)
        ensures
            (final(self)@, command_views(commands@)) == spec_load_commit_files(old(self)@, hash@),
    {
        let mut commands: Vec<GitHistoryCommand> = Vec::new();
        if self.commit_files.contains_key(hash.as_str()) || self.loading_files.contains_key(hash.as_str()) {
            assert(command_views(commands@) =~= Seq::<CommandView>::empty());
            return commands;
        }
        self.loading_files.insert(hash.clone(), ());
        self.file_errors.remove(hash.as_str());
        commands.push(GitHistoryCommand::EmitUpdated);
        commands.push(GitHistoryCommand::LoadCommitFiles { hash });
        assert(command_views(commands@) =~= spec_load_commit_files(old(self)@, hash@).1);
        assert(self@.loading_files =~= old(self)@.loading_files.insert(hash@));
        assert(self@.file_errors =~= old(self)@.file_errors.remove(hash@));
        assert(self@ =~= spec_load_commit_files(old(self)@, hash@).0);
        commands
    }

    /// Takes in the file list of commit `hash`.
    pub fn commit_files_loaded(&mut self, hash: String, result: Result<Vec<FileChangeEntry>, String>) -> (commands:
        Vec<GitHistoryCommand>)
        ensures
            (final(self)@, command_views(commands@)) == spec_commit_files_loaded(
                old(self)@,
                hash@,
                files_result_view(result),
            ),
    {
        let mut commands: Vec<GitHistoryCommand> = Vec::new();
        self.loading_files.remove(hash.as_str());
        assert(self@.loading_files =~= old(self)@.loading_files.remove(hash@));
        match result {
            Ok(files) => {
                self.file_errors.remove(hash.as_str());
                self.commit_files.insert(hash, files);
                assert(self@.file_errors =~= old(self)@.file_errors.remove(hash@));
                assert(self@.commit_files =~= old(self)@.commit_files.insert(hash@, file_views(files@)));
            },
            Err(error) => {
                self.file_errors.insert(hash, error);
                assert(self@.file_errors =~= old(self)@.file_errors.insert(hash@, error@));
            },
        }
        commands.push(GitHistoryCommand::EmitUpdated);
        assert(command_views(commands@) =~= seq![CommandView::EmitUpdated]);
        assert(self@ =~= spec_commit_files_loaded(old(self)@, hash@, files_result_view(result)).0);
        commands
    }

    /// Reacts to a change that the repository watcher reports (see
    /// `spec_repository_updated`).
    pub fn repository_updated(&mut self, update_is_empty: bool, commit_updated: bool) -> (commands: Vec<
        GitHistoryCommand,
    >)
        ensures
            (final(self)@, command_views(commands@)) == spec_repository_updated(
                old(self)@,
                update_is_empty,
                commit_updated,
            ),
    {
        let mut commands: Vec<GitHistoryCommand> = if !update_is_empty {
            self.refresh_working_tree()
        } else {
            let c: Vec<GitHistoryCommand> = Vec::new();
            assert(command_views(c@) =~= Seq::<CommandView>::empty());
            c
        };
        let ghost first = command_views(commands@);
        if commit_updated && self.history_loaded {
            let mut more = self.refresh_history();
            let ghost second = command_views(more@);
            commands.append(&mut more);
            assert(command_views(commands@) =~= first + second);
        }
        commands
    }

    /// The requests to abort when the model is dropped.
    pub fn shutdown(&self) -> (commands: Vec<GitHistoryCommand>)
        ensures
            command_views(commands@) == spec_shutdown(self@),
    {
        let mut commands: Vec<GitHistoryCommand> = Vec::new();
        if self.loading {
            commands.push(GitHistoryCommand::AbortHistoryRequest);
        }
        if self.working_tree_loading {
            commands.push(GitHistoryCommand::AbortWorkingTreeRequest);
        }
        assert(command_views(commands@) =~= spec_shutdown(self@));
        commands
    }
}

/// What the working-tree list shows in place of rows when there are no
/// changes.
#[derive(Clone, Debug, PartialEq, Eq)]
pub enum WorkingTreePlaceholder {
    Loading,
    LoadError(String),
    Clean,
}

/// What the history list shows in place of rows when there are no
/// commits.
#[derive(Clone, Debug, PartialEq, Eq)]
pub enum HistoryPlaceholder {
    Loading,
    LoadError(String),
    Empty,
}

/// The notice below a non-empty history list.
#[derive(Clone, Debug, PartialEq, Eq)]
pub enum HistoryNotice {
    Loading,
    LoadError(String),
}

/// What an expanded commit shows below its summary.
#[derive(Clone, Debug, PartialEq, Eq)]
pub enum CommitFilesDisplay {
    /// Its file list, which is not empty.
    Files,
    NoChangedFiles,
    LoadError(String),
    Loading,
    Nothing,
}

/// A placeholder as plain values.
pub enum WorkingTreePlaceholderView {
    Loading,
    LoadError(Seq<char>),
    Clean,
}

impl View for WorkingTreePlaceholder {
    type V = WorkingTreePlaceholderView;

    open spec fn view(&self) -> WorkingTreePlaceholderView {
        match self {
            WorkingTreePlaceholder::Loading => WorkingTreePlaceholderView::Loading,
            WorkingTreePlaceholder::LoadError(e) => WorkingTreePlaceholderView::LoadError(e@),
            WorkingTreePlaceholder::Clean => WorkingTreePlaceholderView::Clean,
        }
    }
}

/// A placeholder as plain values.
pub enum HistoryPlaceholderView {
    Loading,
    LoadError(Seq<char>),
    Empty,
}

impl View for HistoryPlaceholder {
    type V = HistoryPlaceholderView;

    open spec fn view(&self) -> HistoryPlaceholderView {
        match self {
            HistoryPlaceholder::Loading => HistoryPlaceholderView::Loading,
            HistoryPlaceholder::LoadError(e) => HistoryPlaceholderView::LoadError(e@),
            HistoryPlaceholder::Empty => HistoryPlaceholderView::Empty,
        }
    }
}

/// A notice as plain values.
pub enum HistoryNoticeView {
    Loading,
    LoadError(Seq<char>),
}

impl View for HistoryNotice {
    type V = HistoryNoticeView;

    open spec fn view(&self) -> HistoryNoticeView {
        match self {
            HistoryNotice::Loading => HistoryNoticeView::Loading,
            HistoryNotice::LoadError(e) => HistoryNoticeView::LoadError(e@),
        }
    }
}

/// A file display as plain values.
pub enum CommitFilesDisplayView {
    Files,
    NoChangedFiles,
    LoadError(Seq<char>),
    Loading,
    Nothing,
}

impl View for CommitFilesDisplay {
    type V = CommitFilesDisplayView;

    open spec fn view(&self) -> CommitFilesDisplayView {
        match self {
            CommitFilesDisplay::Files => CommitFilesDisplayView::Files,
            CommitFilesDisplay::NoChangedFiles => CommitFilesDisplayView::NoChangedFiles,
            CommitFilesDisplay::LoadError(e) => CommitFilesDisplayView::LoadError(e@),
            CommitFilesDisplay::Loading => CommitFilesDisplayView::Loading,
            CommitFilesDisplay::Nothing => CommitFilesDisplayView::Nothing,
        }
    }
}

/// With no changes listed: loading while a request is in flight, else the
/// error of the last one, else clean.
pub open spec fn spec_working_tree_placeholder(s: GitHistoryState) -> Option<WorkingTreePlaceholderView> {
    if s.staged.len() != 0 || s.unstaged.len() != 0 {
        None
    } else if s.working_tree_loading {
        Some(WorkingTreePlaceholderView::Loading)
    } else {
        match s.working_tree_error {
            Some(e) => Some(WorkingTreePlaceholderView::LoadError(e)),
            None => Some(WorkingTreePlaceholderView::Clean),
        }
    }
}

/// With no commits listed: loading while a request is in flight, else the
/// error of the last one, else empty.
pub open spec fn spec_history_placeholder(s: GitHistoryState) -> Option<HistoryPlaceholderView> {
    if s.commits.len() != 0 {
        None
    } else if s.loading {
        Some(HistoryPlaceholderView::Loading)
    } else {
        match s.error {
            Some(e) => Some(HistoryPlaceholderView::LoadError(e)),
            None => Some(HistoryPlaceholderView::Empty),
        }
    }
}

/// Below listed commits: the error of the last request, else loading
/// while one is in flight.
pub open spec fn spec_history_notice(s: GitHistoryState) -> Option<HistoryNoticeView> {
    if s.commits.len() == 0 {
        None
    } else {
        match s.error {
            Some(e) => Some(HistoryNoticeView::LoadError(e)),
            None => if s.loading {
                Some(HistoryNoticeView::Loading)
            } else {
                None
            },
        }
    }
}

/// Below an expanded commit: its files when loaded (or a note that there
/// are none), else its error, else loading while they are being read.
pub open spec fn spec_commit_files_display(s: GitHistoryState, hash: Seq<char>) -> CommitFilesDisplayView {
    if s.commit_files.contains_key(hash) {
        if s.commit_files[hash].len() == 0 {
            CommitFilesDisplayView::NoChangedFiles
        } else {
            CommitFilesDisplayView::Files
        }
    } else if s.file_errors.contains_key(hash) {
        CommitFilesDisplayView::LoadError(s.file_errors[hash])
    } else if s.loading_files.contains(hash) {
        CommitFilesDisplayView::Loading
    } else {
        CommitFilesDisplayView::Nothing
    }
}

impl GitHistoryModel {
    /// What the working-tree list shows when it has no rows (see
    /// `spec_working_tree_placeholder`).
    pub fn working_tree_placeholder(&self) -> (r: Option<WorkingTreePlaceholder>)
        ensures
            match r {
                Some(p) => spec_working_tree_placeholder(self@) == Some(p@),
                None => spec_working_tree_placeholder(self@) is None,
            },
    {
        if self.working_tree_changes.staged.len() != 0 || self.working_tree_changes.unstaged.len() != 0 {
            None
        } else if self.working_tree_loading {
            Some(WorkingTreePlaceholder::Loading)
        } else {
            match &self.working_tree_error {
                Some(e) => Some(WorkingTreePlaceholder::LoadError(e.clone())),
                None => Some(WorkingTreePlaceholder::Clean),
            }
        }
    }

    /// What the history list shows when it has no rows (see
    /// `spec_history_placeholder`).
    pub fn history_placeholder(&self) -> (r: Option<HistoryPlaceholder>)
        ensures
            match r {
                Some(p) => spec_history_placeholder(self@) == Some(p@),
                None => spec_history_placeholder(self@) is None,
            },
    {
        if self.commits.len() != 0 {
            None
        } else if self.loading {
            Some(HistoryPlaceholder::Loading)
        } else {
            match &self.error {
                Some(e) => Some(HistoryPlaceholder::LoadError(e.clone())),
                None => Some(HistoryPlaceholder::Empty),
            }
        }
    }

    /// The notice below a non-empty history list (see `spec_history_notice`).
    pub fn history_notice(&self) -> (r: Option<HistoryNotice>)
        ensures
            match r {
                Some(p) => spec_history_notice(self@) == Some(p@),
                None => spec_history_notice(self@) is None,
            },
    {
        if self.commits.len() == 0 {
            return None;
        }
        match &self.error {
            Some(e) => Some(HistoryNotice::LoadError(e.clone())),
            None => if self.loading {
                Some(HistoryNotice::Loading)
            } else {
                None
            },
        }
    }

    /// What an expanded commit shows below its summary (see
    /// `spec_commit_files_display`).
    pub fn commit_files_display(&self, hash: &str) -> (r: CommitFilesDisplay)
        ensures
            r@ == spec_commit_files_display(self@, hash@),
    {
        match self.commit_files.get(hash) {
            Some(files) => {
                if files.len() == 0 {
                    CommitFilesDisplay::NoChangedFiles
                } else {
                    CommitFilesDisplay::Files
                }
            },
            None => match self.file_errors.get(hash) {
                Some(e) => CommitFilesDisplay::LoadError(e.clone()),
                None => if self.loading_files.contains_key(hash) {
                    CommitFilesDisplay::Loading
                } else {
                    CommitFilesDisplay::Nothing
                },
            },
        }
    }
}

/// No commit's files are at once loaded and being loaded.
pub open spec fn files_disjoint(s: GitHistoryState) -> bool {
    forall|h: Seq<char>| !(#[trigger] s.commit_files.contains_key(h) && s.loading_files.contains(h))
}

/// Once the working tree is read anew, a result of the request it
/// superseded changes nothing and emits nothing.
pub proof fn lemma_refresh_drops_superseded_working_tree_result(
    s: GitHistoryState,
    result: Result<(Seq<ChangeView>, Seq<ChangeView>), Seq<char>>,
)
    ensures
        ({
            let t = spec_refresh_working_tree(s).0;
            spec_working_tree_loaded(t, s.working_tree_generation, result) == (t, Seq::<CommandView>::empty())
        }),
{
}

/// The result of the request that a refresh starts is what the model
/// then shows: the changes, or no changes and the error; loading is over.
pub proof fn lemma_refreshed_working_tree_shows_result(
    s: GitHistoryState,
    result: Result<(Seq<ChangeView>, Seq<ChangeView>), Seq<char>>,
)
    ensures
        ({
            let (t, cmds) = spec_refresh_working_tree(s);
            let g = t.working_tree_generation;
            let u = spec_working_tree_loaded(t, g, result).0;
            &&& cmds.last() == CommandView::LoadWorkingTree { generation: g }
            &&& !u.working_tree_loading
            &&& match result {
                Ok((staged, unstaged)) => u.staged == staged && u.unstaged == unstaged
                    && u.working_tree_error is None,
                Err(e) => u.staged.len() == 0 && u.unstaged.len() == 0 && u.working_tree_error
                    == Some(e),
            }
        }),
{
}

/// Once the history is read anew, or its next page asked for, a result of
/// an earlier history request changes nothing and emits nothing.
pub proof fn lemma_new_history_request_drops_earlier_results(
    s: GitHistoryState,
    result: Result<(Seq<CommitView>, bool), Seq<char>>,
)
    ensures
        ({
            let t = spec_refresh_history(s).0;
            &&& spec_history_page_loaded(t, s.generation, result) == (t, Seq::<CommandView>::empty())
            &&& spec_more_history_loaded(t, s.generation, result) == (t, Seq::<CommandView>::empty())
        }),
        ({
            let t = spec_load_more(s).0;
            !s.loading && s.has_more ==> {
                &&& spec_history_page_loaded(t, s.generation, result) == (t, Seq::<CommandView>::empty())
                &&& spec_more_history_loaded(t, s.generation, result) == (t, Seq::<CommandView>::empty())
            }
        }),
{
}

/// The first page that a refresh asks for replaces the history: its
/// commits and whether more remain are shown, loading is over, and the
/// file lists and file errors of the old history are forgotten.
pub proof fn lemma_first_page_replaces_history(s: GitHistoryState, commits: Seq<CommitView>, has_more: bool)
    ensures
        ({
            let (t, cmds) = spec_refresh_history(s);
            let u = spec_history_page_loaded(t, t.generation, Ok((commits, has_more))).0;
            &&& cmds.last() == CommandView::LoadHistory { generation: t.generation }
            &&& u.commits == commits
            &&& u.has_more == has_more
            &&& !u.loading
            &&& u.error is None
            &&& u.commit_files == Map::<Seq<char>, Seq<FileView>>::empty()
            &&& u.file_errors == Map::<Seq<char>, Seq<char>>::empty()
        }),
{
}

/// Paging asks for the commits after those loaded and appends what comes
/// back; while that request is in flight, asking again does nothing.
pub proof fn lemma_next_page_appends(s: GitHistoryState, commits: Seq<CommitView>, has_more: bool)
    requires
        !s.loading,
        s.has_more,
    ensures
        ({
            let (t, cmds) = spec_load_more(s);
            let u = spec_more_history_loaded(t, t.generation, Ok((commits, has_more))).0;
            &&& cmds.last() == CommandView::LoadMoreHistory {
                generation: t.generation,
                skip: s.commits.len() as usize,
            }
            &&& spec_load_more(t) == (t, Seq::<CommandView>::empty())
            &&& u.commits == s.commits + commits
            &&& u.has_more == has_more
            &&& !u.loading
        }),
{
}

/// Asking for the history a second time does nothing.
pub proof fn lemma_ensure_history_loaded_asks_once(s: GitHistoryState)
    ensures
        ({
            let t = spec_ensure_history_loaded(s).0;
            spec_ensure_history_loaded(t) == (t, Seq::<CommandView>::empty())
        }),
{
}

/// Asking for a commit's files a second time does nothing: one request per
/// commit until its result comes back.
pub proof fn lemma_load_commit_files_asks_once(s: GitHistoryState, hash: Seq<char>)
    ensures
        ({
            let t = spec_load_commit_files(s, hash).0;
            spec_load_commit_files(t, hash) == (t, Seq::<CommandView>::empty())
        }),
{
}

/// A commit's loaded files are shown by the model until the history is
/// replaced; asking for them again does nothing.
pub proof fn lemma_loaded_files_are_kept(
    s: GitHistoryState,
    hash: Seq<char>,
    files: Seq<FileView>,
)
    ensures
        ({
            let t = spec_commit_files_loaded(s, hash, Ok(files)).0;
            &&& t.commit_files.contains_key(hash)
            &&& t.commit_files[hash] == files
            &&& !t.loading_files.contains(hash)
            &&& !t.file_errors.contains_key(hash)
            &&& spec_load_commit_files(t, hash) == (t, Seq::<CommandView>::empty())
        }),
{
}

/// Every operation keeps the loaded and the loading file lists apart.
pub proof fn lemma_operations_keep_files_disjoint(
    s: GitHistoryState,
    generation: u64,
    hash: Seq<char>,
    changes: Result<(Seq<ChangeView>, Seq<ChangeView>), Seq<char>>,
    page: Result<(Seq<CommitView>, bool), Seq<char>>,
    files: Result<Seq<FileView>, Seq<char>>,
    update_is_empty: bool,
    commit_updated: bool,
)
    requires
        files_disjoint(s),
    ensures
        files_disjoint(initial_state(s.repo_path)),
        files_disjoint(spec_refresh_working_tree(s).0),
        files_disjoint(spec_working_tree_loaded(s, generation, changes).0),
        files_disjoint(spec_refresh_history(s).0),
        files_disjoint(spec_ensure_history_loaded(s).0),
        files_disjoint(spec_history_page_loaded(s, generation, page).0),
        files_disjoint(spec_load_more(s).0),
        files_disjoint(spec_more_history_loaded(s, generation, page).0),
        files_disjoint(spec_load_commit_files(s, hash).0),
        files_disjoint(spec_commit_files_loaded(s, hash, files).0),
        files_disjoint(spec_repository_updated(s, update_is_empty, commit_updated).0),
{
}

/// A change on disk: a non-empty update always reads the working tree
/// again under a new generation, whether or not a commit changed; an empty
/// one leaves the working tree alone. The history is read again exactly
/// when a commit changed and the history was asked for, and is otherwise
/// left alone.
pub proof fn lemma_repository_update_refreshes(s: GitHistoryState, update_is_empty: bool, commit_updated: bool)
    ensures
        ({
            let (t, c) = spec_repository_updated(s, update_is_empty, commit_updated);
            &&& !update_is_empty ==> {
                &&& t.working_tree_loading
                &&& t.working_tree_error is None
                &&& t.working_tree_generation == next_generation(s.working_tree_generation)
                &&& t.working_tree_generation != s.working_tree_generation
                &&& c.contains(CommandView::LoadWorkingTree { generation: t.working_tree_generation })
            }
            &&& update_is_empty ==> {
                &&& t.working_tree_loading == s.working_tree_loading
                &&& t.working_tree_error == s.working_tree_error
                &&& t.working_tree_generation == s.working_tree_generation
                &&& forall|g: u64| !c.contains(CommandView::LoadWorkingTree { generation: g })
            }
            &&& commit_updated && s.history_loaded ==> {
                &&& t.loading
                &&& t.generation == next_generation(s.generation)
                &&& c.contains(CommandView::LoadHistory { generation: t.generation })
            }
            &&& !(commit_updated && s.history_loaded) ==> {
                &&& t.loading == s.loading
                &&& t.generation == s.generation
                &&& forall|g: u64| !c.contains(CommandView::LoadHistory { generation: g })
            }
            &&& t.staged == s.staged && t.unstaged == s.unstaged && t.commits == s.commits
        }),
{
    let (t, c) = spec_repository_updated(s, update_is_empty, commit_updated);
    let a = if update_is_empty {
        (s, Seq::<CommandView>::empty())
    } else {
        spec_refresh_working_tree(s)
    };
    if !update_is_empty {
        let k = a.1.len() - 1;
        assert(a.1[k] == CommandView::LoadWorkingTree { generation: a.0.working_tree_generation });
        assert(c[k] == a.1[k]);
    } else {
        assert(a.1.len() == 0);
    }
    assert forall|g: u64| !a.1.contains(CommandView::LoadHistory { generation: g }) by {
        if a.1.contains(CommandView::LoadHistory { generation: g }) {
            let k = choose|k: int| 0 <= k < a.1.len() && a.1[k] == CommandView::LoadHistory { generation: g };
            if s.working_tree_loading {
                assert(k == 0 || k == 1 || k == 2);
            } else {
                assert(k == 0 || k == 1);
            }
        }
    }
    if commit_updated && a.0.history_loaded {
        let b = spec_refresh_history(a.0);
        let k = a.1.len() + b.1.len() - 1;
        assert(c[k] == CommandView::LoadHistory { generation: b.0.generation });
        assert forall|g: u64| update_is_empty implies !c.contains(CommandView::LoadWorkingTree { generation: g }) by {
            if c.contains(CommandView::LoadWorkingTree { generation: g }) {
                let k = choose|k: int| 0 <= k < c.len() && c[k] == CommandView::LoadWorkingTree { generation: g };
                assert(c[k] == b.1[k]);
                if s.loading {
                    assert(k == 0 || k == 1 || k == 2);
                } else {
                    assert(k == 0 || k == 1);
                }
            }
        }
    }
}

/// The subscription of the model to the repository's watcher: the
/// subscriber it registered, while it has one.
pub struct RepositoryWatcher {
    subscriber_id: Option<u64>,
}

impl View for RepositoryWatcher {
    type V = Option<u64>;

    closed spec fn view(&self) -> Option<u64> {
        self.subscriber_id
    }
}

impl RepositoryWatcher {
    /// No subscription.
    pub fn new() -> (w: RepositoryWatcher)
        ensures
            w@ is None,
    {
        RepositoryWatcher { subscriber_id: None }
    }

    /// The subscriber that the model holds, if any.
    pub fn subscriber_id(&self) -> (r: Option<u64>)
        ensures
            r == self@,
    {
        self.subscriber_id
    }

    /// The watcher took subscriber `id` for the model.
    pub fn start_watching(&mut self, id: u64)
        ensures
            final(self)@ == Some(id),
    {
        self.subscriber_id = Some(id);
    }

    /// Gives up the subscription: the subscriber to stop, if there is one;
    /// afterwards there is none.
    pub fn stop_active_watcher(&mut self) -> (stop: Option<u64>)
        ensures
            stop == old(self)@,
            final(self)@ is None,
    {
        let stop = self.subscriber_id;
        self.subscriber_id = None;
        stop
    }

    /// The watcher's registration finished: on success nothing changes; on
    /// failure the subscription is given up as `stop_active_watcher` does.
    pub fn registration_finished(&mut self, succeeded: bool) -> (stop: Option<u64>)
        ensures
            succeeded ==> stop is None && final(self)@ == old(self)@,
            !succeeded ==> stop == old(self)@ && final(self)@ is None,
    {
        if succeeded {
            None
        } else {
            self.stop_active_watcher()
        }
    }
}

} // verus!
