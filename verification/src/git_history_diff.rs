//! The read-only diff panel beside the git sidebar: which file it shows,
//! from which commit or side of the index, and whether its diff is
//! loading, loaded or failed.
//!
//! As in the sidebar, loading runs elsewhere: opening a file returns a
//! load command tagged with a generation, and only the result of the
//! latest request is taken in.
use vstd::prelude::*;

use crate::git::{ChangeView, GitWorkingTreeArea, GitWorkingTreeChange};
use crate::git_history::{bump, next_generation};
use crate::git_history_view::copy_change;
use crate::text::{chars_of, copy_string, decimal, push_decimal, push_range, push_str};

verus! {

/// Tells the owner that the panel changed.
#[derive(Clone, Debug, PartialEq, Eq)]
pub enum GitHistoryDiffEvent {
    Updated,
}

/// How a diff line differs.
#[derive(Clone, Copy, Debug, PartialEq, Eq, Structural)]
pub enum DiffLineType {
    Context,
    Add,
    Delete,
    HunkHeader,
}

/// One line of a hunk.
#[derive(Clone, Debug, PartialEq, Eq)]
pub struct DiffLine {
    pub line_type: DiffLineType,
    pub old_line_number: Option<usize>,
    pub new_line_number: Option<usize>,
    pub text: String,
}

/// One hunk of a patch.
#[derive(Clone, Debug, PartialEq, Eq)]
pub struct DiffHunk {
    pub old_start_line: usize,
    pub old_line_count: usize,
    pub new_start_line: usize,
    pub new_line_count: usize,
    pub lines: Vec<DiffLine>,
}

/// A diff line as plain values.
pub struct DiffLineView {
    pub line_type: DiffLineType,
    pub old_line_number: Option<usize>,
    pub new_line_number: Option<usize>,
    pub text: Seq<char>,
}

impl View for DiffLine {
    type V = DiffLineView;

    open spec fn view(&self) -> DiffLineView {
        DiffLineView {
            line_type: self.line_type,
            old_line_number: self.old_line_number,
            new_line_number: self.new_line_number,
            text: self.text@,
        }
    }
}

/// A hunk as plain values.
pub struct DiffHunkView {
    pub old_start_line: usize,
    pub old_line_count: usize,
    pub new_start_line: usize,
    pub new_line_count: usize,
    pub lines: Seq<DiffLineView>,
}

impl View for DiffHunk {
    type V = DiffHunkView;

    open spec fn view(&self) -> DiffHunkView {
        DiffHunkView {
            old_start_line: self.old_start_line,
            old_line_count: self.old_line_count,
            new_start_line: self.new_start_line,
            new_line_count: self.new_line_count,
            lines: self.lines@.map_values(|l: DiffLine| l@),
        }
    }
}

pub open spec fn hunk_views(s: Seq<DiffHunk>) -> Seq<DiffHunkView> {
    s.map_values(|h: DiffHunk| h@)
}

/// Where the shown diff comes from.
pub enum GitHistoryDiffSource {
    Commit { commit_hash: String, commit_subject: String },
    WorkingTree { area: GitWorkingTreeArea, change: GitWorkingTreeChange },
}

/// The file that the panel shows.
pub struct GitHistoryDiffSelection {
    pub repo_path: String,
    pub file_path: String,
    pub source: GitHistoryDiffSource,
}

/// A diff as git gave it, split into hunks.
pub struct LoadedDiff {
    pub hunks: Vec<DiffHunk>,
    pub is_binary: bool,
    pub is_too_large: bool,
    pub has_hidden_bidi_chars: bool,
}

/// What the panel holds.
pub enum GitHistoryDiffState {
    Empty,
    Loading(GitHistoryDiffSelection),
    Loaded {
        selection: GitHistoryDiffSelection,
        hunks: Vec<DiffHunk>,
        is_binary: bool,
        is_too_large: bool,
        has_hidden_bidi_chars: bool,
    },
    Error { selection: GitHistoryDiffSelection, message: String },
}

/// A source as plain values.
pub enum SourceView {
    Commit { commit_hash: Seq<char>, commit_subject: Seq<char> },
    WorkingTree { area: GitWorkingTreeArea, change: ChangeView },
}

/// A selection as plain values.
pub struct SelectionView {
    pub repo_path: Seq<char>,
    pub file_path: Seq<char>,
    pub source: SourceView,
}

impl View for GitHistoryDiffSelection {
    type V = SelectionView;

    open spec fn view(&self) -> SelectionView {
        SelectionView {
            repo_path: self.repo_path@,
            file_path: self.file_path@,
            source: match self.source {
                GitHistoryDiffSource::Commit { commit_hash, commit_subject } => SourceView::Commit {
                    commit_hash: commit_hash@,
                    commit_subject: commit_subject@,
                },
                GitHistoryDiffSource::WorkingTree { area, change } => SourceView::WorkingTree {
                    area,
                    change: change@,
                },
            },
        }
    }
}

/// The panel's content as plain values.
pub enum DiffStateView {
    Empty,
    Loading(SelectionView),
    Loaded {
        selection: SelectionView,
        hunks: Seq<DiffHunk>,
        is_binary: bool,
        is_too_large: bool,
        has_hidden_bidi_chars: bool,
    },
    Error { selection: SelectionView, message: Seq<char> },
}

impl View for GitHistoryDiffState {
    type V = DiffStateView;

    open spec fn view(&self) -> DiffStateView {
        match self {
            GitHistoryDiffState::Empty => DiffStateView::Empty,
            GitHistoryDiffState::Loading(s) => DiffStateView::Loading(s@),
            GitHistoryDiffState::Loaded {
                selection,
                hunks,
                is_binary,
                is_too_large,
                has_hidden_bidi_chars,
            } => DiffStateView::Loaded {
                selection: selection@,
                hunks: hunks@,
                is_binary: *is_binary,
                is_too_large: *is_too_large,
                has_hidden_bidi_chars: *has_hidden_bidi_chars,
            },
            GitHistoryDiffState::Error { selection, message } => DiffStateView::Error {
                selection: selection@,
                message: message@,
            },
        }
    }
}

/// What the panel asks its owner to do.
pub enum GitHistoryDiffCommand {
    /// Emit `GitHistoryDiffEvent::Updated`.
    EmitUpdated,
    /// Redraw.
    Notify,
    /// Abort the diff request in flight.
    AbortRequest,
    /// Read the diff of `file_path` in commit `commit_hash`, and answer
    /// with `diff_loaded` and what `LoadedDiff::from_file_diff` makes of it.
    LoadCommitDiff { generation: u64, repo_path: String, commit_hash: String, file_path: String },
    /// Read the diff of a working-tree change on one side of the index, and
    /// answer with `diff_loaded` and what `LoadedDiff::from_file_diff`
    /// makes of it.
    LoadWorkingTreeDiff {
        generation: u64,
        repo_path: String,
        area: GitWorkingTreeArea,
        change: GitWorkingTreeChange,
    },
}

/// A command as plain values.
pub enum DiffCommandView {
    EmitUpdated,
    Notify,
    AbortRequest,
    LoadCommitDiff {
        generation: u64,
        repo_path: Seq<char>,
        commit_hash: Seq<char>,
        file_path: Seq<char>,
    },
    LoadWorkingTreeDiff {
        generation: u64,
        repo_path: Seq<char>,
        area: GitWorkingTreeArea,
        change: ChangeView,
    },
}

impl View for GitHistoryDiffCommand {
    type V = DiffCommandView;

    open spec fn view(&self) -> DiffCommandView {
        match self {
            GitHistoryDiffCommand::EmitUpdated => DiffCommandView::EmitUpdated,
            GitHistoryDiffCommand::Notify => DiffCommandView::Notify,
            GitHistoryDiffCommand::AbortRequest => DiffCommandView::AbortRequest,
            GitHistoryDiffCommand::LoadCommitDiff { generation, repo_path, commit_hash, file_path } =>
                DiffCommandView::LoadCommitDiff {
                generation: *generation,
                repo_path: repo_path@,
                commit_hash: commit_hash@,
                file_path: file_path@,
            },
            GitHistoryDiffCommand::LoadWorkingTreeDiff { generation, repo_path, area, change } =>
                DiffCommandView::LoadWorkingTreeDiff {
                generation: *generation,
                repo_path: repo_path@,
                area: *area,
                change: change@,
            },
        }
    }
}

pub open spec fn diff_command_views(s: Seq<GitHistoryDiffCommand>) -> Seq<DiffCommandView> {
    s.map_values(|c: GitHistoryDiffCommand| c@)
}

/// The diff panel.
pub struct GitHistoryDiffView {
    state: GitHistoryDiffState,
    request_generation: u64,
}

/// The panel as plain values. A request is in flight exactly while the
/// panel is loading.
pub struct DiffPanelState {
    pub state: DiffStateView,
    pub generation: u64,
}

impl View for GitHistoryDiffView {
    type V = DiffPanelState;

    closed spec fn view(&self) -> DiffPanelState {
        DiffPanelState { state: self.state@, generation: self.request_generation }
    }
}

/// The request that loads the diff of `s`.
pub open spec fn load_command(s: SelectionView, generation: u64) -> DiffCommandView {
    match s.source {
        SourceView::Commit { commit_hash, .. } => DiffCommandView::LoadCommitDiff {
            generation,
            repo_path: s.repo_path,
            commit_hash,
            file_path: s.file_path,
        },
        SourceView::WorkingTree { area, change } => DiffCommandView::LoadWorkingTreeDiff {
            generation,
            repo_path: s.repo_path,
            area,
            change,
        },
    }
}

pub open spec fn abort_if_loading(p: DiffPanelState) -> Seq<DiffCommandView> {
    if p.state is Loading {
        seq![DiffCommandView::AbortRequest]
    } else {
        Seq::empty()
    }
}

/// Shows `s`: the request in flight, if any, is aborted and superseded
/// by one for `s` with the next generation.
pub open spec fn spec_open_selection(p: DiffPanelState, s: SelectionView) -> (DiffPanelState, Seq<
    DiffCommandView,
>) {
    let g = next_generation(p.generation);
    (
        DiffPanelState { state: DiffStateView::Loading(s), generation: g },
        abort_if_loading(p) + seq![
            DiffCommandView::EmitUpdated,
            DiffCommandView::Notify,
            load_command(s, g),
        ],
    )
}

/// Shows nothing; the request in flight, if any, is aborted and any
/// result still to come is dropped.
pub open spec fn spec_clear(p: DiffPanelState) -> (DiffPanelState, Seq<DiffCommandView>) {
    (
        DiffPanelState { state: DiffStateView::Empty, generation: next_generation(p.generation) },
        abort_if_loading(p) + seq![DiffCommandView::EmitUpdated, DiffCommandView::Notify],
    )
}

/// The result of the request of `generation`: taken in only while the
/// panel loads and the generation is current. A binary or too large diff
/// keeps no hunks.
pub open spec fn spec_diff_loaded(
    p: DiffPanelState,
    generation: u64,
    result: Result<(Seq<DiffHunk>, bool, bool, bool), Seq<char>>,
) -> (DiffPanelState, Seq<DiffCommandView>) {
    if generation != p.generation || !(p.state is Loading) {
        (p, Seq::empty())
    } else {
        let selection = p.state->Loading_0;
        let state = match result {
            Ok((hunks, is_binary, is_too_large, has_hidden_bidi_chars)) => DiffStateView::Loaded {
                selection,
                hunks: if is_binary || is_too_large {
                    Seq::empty()
                } else {
                    hunks
                },
                is_binary,
                is_too_large,
                has_hidden_bidi_chars,
            },
            Err(message) => DiffStateView::Error { selection, message },
        };
        (
            DiffPanelState { state, ..p },
            seq![DiffCommandView::EmitUpdated, DiffCommandView::Notify],
        )
    }
}

pub open spec fn diff_result_view(r: Result<LoadedDiff, String>) -> Result<
    (Seq<DiffHunk>, bool, bool, bool),
    Seq<char>,
> {
    match r {
        Ok(d) => Ok((d.hunks@, d.is_binary, d.is_too_large, d.has_hidden_bidi_chars)),
        Err(e) => Err(e@),
    }
}

/// The selection of a panel state, if it has one.
pub open spec fn selection_of(s: DiffStateView) -> Option<SelectionView> {
    match s {
        DiffStateView::Empty => None,
        DiffStateView::Loading(sel) => Some(sel),
        DiffStateView::Loaded { selection, .. } => Some(selection),
        DiffStateView::Error { selection, .. } => Some(selection),
    }
}

/// What the panel's body shows.
#[derive(Clone, Debug, PartialEq, Eq)]
pub enum DiffBody {
    /// No file is selected.
    EmptySelection,
    /// The diff of this file is loading.
    Loading { file_path: String },
    Binary,
    TooLarge,
    NoTextChanges,
    /// The hunks of the loaded diff.
    Hunks,
    LoadError { message: String },
}

/// A body as plain values.
pub enum DiffBodyView {
    EmptySelection,
    Loading { file_path: Seq<char> },
    Binary,
    TooLarge,
    NoTextChanges,
    Hunks,
    LoadError { message: Seq<char> },
}

impl View for DiffBody {
    type V = DiffBodyView;

    open spec fn view(&self) -> DiffBodyView {
        match self {
            DiffBody::EmptySelection => DiffBodyView::EmptySelection,
            DiffBody::Loading { file_path } => DiffBodyView::Loading { file_path: file_path@ },
            DiffBody::Binary => DiffBodyView::Binary,
            DiffBody::TooLarge => DiffBodyView::TooLarge,
            DiffBody::NoTextChanges => DiffBodyView::NoTextChanges,
            DiffBody::Hunks => DiffBodyView::Hunks,
            DiffBody::LoadError { message } => DiffBodyView::LoadError { message: message@ },
        }
    }
}

/// The body for a panel state: a binary diff before a too-large one
/// before an empty one.
pub open spec fn spec_body(s: DiffStateView) -> DiffBodyView {
    match s {
        DiffStateView::Empty => DiffBodyView::EmptySelection,
        DiffStateView::Loading(sel) => DiffBodyView::Loading { file_path: sel.file_path },
        DiffStateView::Loaded { hunks, is_binary, is_too_large, .. } => if is_binary {
            DiffBodyView::Binary
        } else if is_too_large {
            DiffBodyView::TooLarge
        } else if hunks.len() == 0 {
            DiffBodyView::NoTextChanges
        } else {
            DiffBodyView::Hunks
        },
        DiffStateView::Error { message, .. } => DiffBodyView::LoadError { message },
    }
}

impl GitHistoryDiffView {
    /// An empty panel.
    pub fn new() -> (view: GitHistoryDiffView)
        ensures
            view@ == (DiffPanelState { state: DiffStateView::Empty, generation: 0 }),
    {
        GitHistoryDiffView { state: GitHistoryDiffState::Empty, request_generation: 0 }
    }

    /// Shows `file_path` as commit `commit_hash` changed it.
    pub fn open(
        &mut self,
        repo_path: String,
        commit_hash: String,
        commit_subject: String,
        file_path: String,
    ) -> (commands: Vec<GitHistoryDiffCommand>)
        ensures
            (final(self)@, diff_command_views(commands@)) == spec_open_selection(
                old(self)@,
                SelectionView {
                    repo_path: repo_path@,
                    file_path: file_path@,
                    source: SourceView::Commit {
                        commit_hash: commit_hash@,
                        commit_subject: commit_subject@,
                    },
                },
            ),
    {
        self.open_selection(
            GitHistoryDiffSelection {
                repo_path,
                file_path,
                source: GitHistoryDiffSource::Commit { commit_hash, commit_subject },
            },
        )
    }

    /// Shows a working-tree change on one side of the index.
    pub fn open_working_tree(
        &mut self,
        repo_path: String,
        area: GitWorkingTreeArea,
        change: GitWorkingTreeChange,
    ) -> (commands: Vec<GitHistoryDiffCommand>)
        ensures
            (final(self)@, diff_command_views(commands@)) == spec_open_selection(
                old(self)@,
                SelectionView {
                    repo_path: repo_path@,
                    file_path: change.path@,
                    source: SourceView::WorkingTree { area, change: change@ },
                },
            ),
    {
        let file_path = copy_string(&change.path);
        self.open_selection(
            GitHistoryDiffSelection {
                repo_path,
                file_path,
                source: GitHistoryDiffSource::WorkingTree { area, change },
            },
        )
    }

    fn open_selection(&mut self, selection: GitHistoryDiffSelection) -> (commands: Vec<
        GitHistoryDiffCommand,
    >)
        ensures
            (final(self)@, diff_command_views(commands@)) == spec_open_selection(old(self)@, selection@),
    {
        let mut commands: Vec<GitHistoryDiffCommand> = Vec::new();
        if let GitHistoryDiffState::Loading(_) = &self.state {
            commands.push(GitHistoryDiffCommand::AbortRequest);
        }
        let g = bump(self.request_generation);
        self.request_generation = g;
        let load = match &selection.source {
            GitHistoryDiffSource::Commit { commit_hash, .. } => GitHistoryDiffCommand::LoadCommitDiff {
                generation: g,
                repo_path: copy_string(&selection.repo_path),
                commit_hash: copy_string(commit_hash),
                file_path: copy_string(&selection.file_path),
            },
            GitHistoryDiffSource::WorkingTree { area, change } =>
                GitHistoryDiffCommand::LoadWorkingTreeDiff {
                generation: g,
                repo_path: copy_string(&selection.repo_path),
                area: *area,
                change: copy_change(change),
            },
        };
        self.state = GitHistoryDiffState::Loading(selection);
        commands.push(GitHistoryDiffCommand::EmitUpdated);
        commands.push(GitHistoryDiffCommand::Notify);
        commands.push(load);
        assert(diff_command_views(commands@) =~= spec_open_selection(old(self)@, selection@).1);
        commands
    }

    /// Shows nothing (see `spec_clear`).
    pub fn clear(&mut self) -> (commands: Vec<GitHistoryDiffCommand>)
        ensures
            (final(self)@, diff_command_views(commands@)) == spec_clear(old(self)@),
    {
        let mut commands: Vec<GitHistoryDiffCommand> = Vec::new();
        if let GitHistoryDiffState::Loading(_) = &self.state {
            commands.push(GitHistoryDiffCommand::AbortRequest);
        }
        self.request_generation = bump(self.request_generation);
        self.state = GitHistoryDiffState::Empty;
        commands.push(GitHistoryDiffCommand::EmitUpdated);
        commands.push(GitHistoryDiffCommand::Notify);
        assert(diff_command_views(commands@) =~= spec_clear(old(self)@).1);
        commands
    }

    /// Takes in the result of the request of `generation` (see
    /// `spec_diff_loaded`).
    pub fn diff_loaded(&mut self, generation: u64, result: Result<LoadedDiff, String>) -> (commands:
        Vec<GitHistoryDiffCommand>)
        ensures
            (final(self)@, diff_command_views(commands@)) == spec_diff_loaded(
                old(self)@,
                generation,
                diff_result_view(result),
            ),
    {
        let mut commands: Vec<GitHistoryDiffCommand> = Vec::new();
        if generation != self.request_generation {
            assert(diff_command_views(commands@) =~= Seq::<DiffCommandView>::empty());
            return commands;
        }
        let mut state = GitHistoryDiffState::Empty;
        std::mem::swap(&mut state, &mut self.state);
        match state {
            GitHistoryDiffState::Loading(selection) => {
                self.state = match result {
                    Ok(diff) => GitHistoryDiffState::Loaded {
                        selection,
                        hunks: if diff.is_binary || diff.is_too_large {
                            Vec::new()
                        } else {
                            diff.hunks
                        },
                        is_binary: diff.is_binary,
                        is_too_large: diff.is_too_large,
                        has_hidden_bidi_chars: diff.has_hidden_bidi_chars,
                    },
                    Err(message) => GitHistoryDiffState::Error { selection, message },
                };
                commands.push(GitHistoryDiffCommand::EmitUpdated);
                commands.push(GitHistoryDiffCommand::Notify);
                assert(diff_command_views(commands@) =~= seq![
                    DiffCommandView::EmitUpdated,
                    DiffCommandView::Notify,
                ]);
            },
            other => {
                self.state = other;
                assert(diff_command_views(commands@) =~= Seq::<DiffCommandView>::empty());
            },
        }
        commands
    }

    /// The request to abort when the panel goes away.
    pub fn shutdown(&self) -> (commands: Vec<GitHistoryDiffCommand>)
        ensures
            diff_command_views(commands@) == abort_if_loading(self@),
    {
        let mut commands: Vec<GitHistoryDiffCommand> = Vec::new();
        if let GitHistoryDiffState::Loading(_) = &self.state {
            commands.push(GitHistoryDiffCommand::AbortRequest);
        }
        assert(diff_command_views(commands@) =~= abort_if_loading(self@));
        commands
    }

    /// The file shown, if any.
    pub fn selection(&self) -> (r: Option<&GitHistoryDiffSelection>)
        ensures
            match r {
                Some(s) => selection_of(self@.state) == Some(s@),
                None => selection_of(self@.state) is None,
            },
    {
        match &self.state {
            GitHistoryDiffState::Empty => None,
            GitHistoryDiffState::Loading(selection) => Some(selection),
            GitHistoryDiffState::Loaded { selection, .. } => Some(selection),
            GitHistoryDiffState::Error { selection, .. } => Some(selection),
        }
    }

    /// The hunks of the loaded diff; none in any other state.
    pub fn hunks(&self) -> (r: &[DiffHunk])
        ensures
            match self@.state {
                DiffStateView::Loaded { hunks, .. } => r@ == hunks,
                _ => r@.len() == 0,
            },
    {
        match &self.state {
            GitHistoryDiffState::Loaded { hunks, .. } => hunks.as_slice(),
            _ => &[],
        }
    }

    /// What the body shows (see `spec_body`).
    pub fn body(&self) -> (r: DiffBody)
        ensures
            r@ == spec_body(self@.state),
    {
        match &self.state {
            GitHistoryDiffState::Empty => DiffBody::EmptySelection,
            GitHistoryDiffState::Loading(selection) => DiffBody::Loading {
                file_path: copy_string(&selection.file_path),
            },
            GitHistoryDiffState::Loaded { hunks, is_binary, is_too_large, .. } => {
                if *is_binary {
                    DiffBody::Binary
                } else if *is_too_large {
                    DiffBody::TooLarge
                } else if hunks.len() == 0 {
                    DiffBody::NoTextChanges
                } else {
                    DiffBody::Hunks
                }
            },
            GitHistoryDiffState::Error { message, .. } => DiffBody::LoadError {
                message: copy_string(message),
            },
        }
    }

    /// Whether a warning about hidden bidirectional characters goes above
    /// the body: only for a loaded diff that has them.
    pub fn shows_hidden_bidi_warning(&self) -> (r: bool)
        ensures
            r == (self@.state matches DiffStateView::Loaded { has_hidden_bidi_chars, .. }
                && has_hidden_bidi_chars),
    {
        match &self.state {
            GitHistoryDiffState::Loaded { has_hidden_bidi_chars, .. } => *has_hidden_bidi_chars,
            _ => false,
        }
    }
}

/// A hunk range as the hunk header writes it: the start alone for one
/// line, otherwise `start,count`.
pub open spec fn spec_hunk_range(start: nat, count: nat) -> Seq<char> {
    if count == 1 {
        decimal(start)
    } else {
        decimal(start) + ","@ + decimal(count)
    }
}

/// A hunk range as the hunk header writes it (see `spec_hunk_range`).
pub fn format_hunk_range(start: usize, count: usize) -> (range: String)
    ensures
        range@ == spec_hunk_range(start as nat, count as nat),
{
    let mut range = String::new();
    push_decimal(&mut range, start);
    if count != 1 {
        push_str(&mut range, ",");
        push_decimal(&mut range, count);
    }
    assert(Seq::<char>::empty() + decimal(start as nat) =~= decimal(start as nat));
    range
}

/// The header line of a hunk: `@@ -old +new @@`.
pub fn hunk_header(hunk: &DiffHunk) -> (header: String)
    ensures
        header@ == "@@ -"@ + spec_hunk_range(hunk.old_start_line as nat, hunk.old_line_count as nat)
            + " +"@ + spec_hunk_range(hunk.new_start_line as nat, hunk.new_line_count as nat)
            + " @@"@,
{
    let mut header = String::new();
    push_str(&mut header, "@@ -");
    let old_range = format_hunk_range(hunk.old_start_line, hunk.old_line_count);
    push_str(&mut header, old_range.as_str());
    push_str(&mut header, " +");
    let new_range = format_hunk_range(hunk.new_start_line, hunk.new_line_count);
    push_str(&mut header, new_range.as_str());
    push_str(&mut header, " @@");
    assert(Seq::<char>::empty() + "@@ -"@ =~= "@@ -"@);
    header
}

/// The marker in front of a diff line.
pub open spec fn spec_line_prefix(t: DiffLineType) -> Seq<char> {
    match t {
        DiffLineType::Context => " "@,
        DiffLineType::Add => "+"@,
        DiffLineType::Delete => "-"@,
        DiffLineType::HunkHeader => "@"@,
    }
}

/// The marker in front of a diff line (see `spec_line_prefix`).
pub fn diff_line_prefix(t: DiffLineType) -> (prefix: &'static str)
    ensures
        prefix@ == spec_line_prefix(t),
{
    match t {
        DiffLineType::Context => " ",
        DiffLineType::Add => "+",
        DiffLineType::Delete => "-",
        DiffLineType::HunkHeader => "@",
    }
}

/// `s` right-aligned in `width` columns: spaces in front of it up to the
/// width.
pub open spec fn pad_left(s: Seq<char>, width: nat) -> Seq<char> {
    if s.len() >= width {
        s
    } else {
        Seq::new((width - s.len()) as nat, |i: int| ' ') + s
    }
}

/// Padding right-aligns: the result is at least `width` long, ends with
/// `s`, and has only spaces in front of it.
pub proof fn lemma_pad_left_aligns(s: Seq<char>, width: nat)
    ensures
        pad_left(s, width).len() == if s.len() >= width {
            s.len()
        } else {
            width
        },
        pad_left(s, width).skip(pad_left(s, width).len() - s.len()) == s,
        forall|i: int| 0 <= i < pad_left(s, width).len() - s.len() ==> #[trigger] pad_left(s, width)[i] == ' ',
{
    let p = pad_left(s, width);
    assert(p.skip(p.len() - s.len()) =~= s);
}

/// A line number as the diff gutter shows it: blank for none.
pub open spec fn line_number_text(n: Option<usize>) -> Seq<char> {
    match n {
        Some(k) => decimal(k as nat),
        None => Seq::empty(),
    }
}

fn push_padded(line: &mut String, n: Option<usize>)
    ensures
        final(line)@ == old(line)@ + pad_left(line_number_text(n), 5),
{
    let mut text = String::new();
    match n {
        Some(k) => {
            push_decimal(&mut text, k);
            assert(Seq::<char>::empty() + decimal(k as nat) =~= decimal(k as nat));
        },
        None => {},
    }
    let digits = chars_of(text.as_str());
    let ghost start = line@;
    let mut k: usize = digits.len();
    while k < 5
        invariant
            digits.len() <= k,
            k <= 5 || k == digits.len(),
            line@ == start + Seq::new((k - digits.len()) as nat, |i: int| ' '),
        decreases 5 - k,
    {
        crate::text::push_char(line, ' ');
        assert(Seq::new((k + 1 - digits.len()) as nat, |i: int| ' ') =~= Seq::new(
            (k - digits.len()) as nat,
            |i: int| ' ',
        ).push(' '));
        k = k + 1;
    }
    let ghost spaces = line@;
    push_range(line, &digits, 0, digits.len());
    assert(digits@.subrange(0, digits.len() as int) =~= digits@);
    if digits.len() >= 5 {
        assert(Seq::new((k - digits.len()) as nat, |i: int| ' ') =~= Seq::<char>::empty());
        assert(start + Seq::<char>::empty() =~= start);
    }
    assert(line@ =~= start + pad_left(line_number_text(n), 5));
}

/// A diff line as the panel shows it: the old and the new line number,
/// each right-aligned in five columns, the marker, and the text.
pub fn diff_line_text(line: &DiffLine) -> (text: String)
    ensures
        text@ == pad_left(line_number_text(line.old_line_number), 5) + " "@ + pad_left(
            line_number_text(line.new_line_number),
            5,
        ) + " "@ + spec_line_prefix(line.line_type) + " "@ + line.text@,
{
    let mut text = String::new();
    push_padded(&mut text, line.old_line_number);
    push_str(&mut text, " ");
    push_padded(&mut text, line.new_line_number);
    push_str(&mut text, " ");
    push_str(&mut text, diff_line_prefix(line.line_type));
    push_str(&mut text, " ");
    push_str(&mut text, line.text.as_str());
    assert(Seq::<char>::empty() + pad_left(line_number_text(line.old_line_number), 5) =~= pad_left(
        line_number_text(line.old_line_number),
        5,
    ));
    text
}

/// The first eight characters of a commit hash.
pub fn short_commit_hash(hash: &str) -> (short: String)
    ensures
        short@ == hash@.take(if hash@.len() < 8 { hash@.len() as int } else { 8 }),
{
    let chars = chars_of(hash);
    let n = if chars.len() < 8 {
        chars.len()
    } else {
        8
    };
    let short = crate::text::string_of(&chars, 0, n);
    assert(chars@.subrange(0, n as int) == chars@.take(n as int));
    short
}

/// The message key of a side of the index's label.
pub open spec fn spec_area_label_key(area: GitWorkingTreeArea) -> Seq<char> {
    match area {
        GitWorkingTreeArea::Staged => "git-working-tree-staged"@,
        GitWorkingTreeArea::Unstaged => "git-working-tree-unstaged"@,
    }
}

/// The message key of a side of the index's label (see
/// `spec_area_label_key`).
pub fn area_label_key(area: GitWorkingTreeArea) -> (key: &'static str)
    ensures
        key@ == spec_area_label_key(area),
{
    match area {
        GitWorkingTreeArea::Staged => "git-working-tree-staged",
        GitWorkingTreeArea::Unstaged => "git-working-tree-unstaged",
    }
}

/// The line under the panel's title: the commit's short hash and subject,
/// or the message key of the side of the index.
#[derive(Clone, Debug, PartialEq, Eq)]
pub enum DiffSourceLabel {
    Commit(String),
    AreaKey(&'static str),
}

/// The panel's header: the message key of its title, the source line, and
/// the file's path.
#[derive(Clone, Debug, PartialEq, Eq)]
pub struct DiffHeader {
    pub title_key: &'static str,
    pub source_label: DiffSourceLabel,
    pub file_path: String,
}

/// A source line as plain values.
pub enum DiffSourceLabelView {
    Commit(Seq<char>),
    AreaKey(Seq<char>),
}

/// A header as plain values.
pub struct DiffHeaderView {
    pub title_key: Seq<char>,
    pub source_label: DiffSourceLabelView,
    pub file_path: Seq<char>,
}

impl View for DiffHeader {
    type V = DiffHeaderView;

    open spec fn view(&self) -> DiffHeaderView {
        DiffHeaderView {
            title_key: self.title_key@,
            source_label: match self.source_label {
                DiffSourceLabel::Commit(l) => DiffSourceLabelView::Commit(l@),
                DiffSourceLabel::AreaKey(k) => DiffSourceLabelView::AreaKey(k@),
            },
            file_path: self.file_path@,
        }
    }
}

/// The header of a selection: a commit diff is titled as such and names
/// the commit; a working-tree diff is titled as such and names its side of
/// the index.
pub open spec fn spec_diff_header(s: SelectionView) -> DiffHeaderView {
    match s.source {
        SourceView::Commit { commit_hash, commit_subject } => DiffHeaderView {
            title_key: "git-history-diff-title"@,
            source_label: DiffSourceLabelView::Commit(hash_prefix(commit_hash) + " · "@ + commit_subject),
            file_path: s.file_path,
        },
        SourceView::WorkingTree { area, .. } => DiffHeaderView {
            title_key: "git-working-tree-diff-title"@,
            source_label: DiffSourceLabelView::AreaKey(spec_area_label_key(area)),
            file_path: s.file_path,
        },
    }
}

impl GitHistoryDiffView {
    /// The header above the diff, shown while there is a selection (see
    /// `spec_diff_header`).
    pub fn header(&self) -> (r: Option<DiffHeader>)
        ensures
            match r {
                Some(h) => selection_of(self@.state) matches Some(s) && h@ == spec_diff_header(s),
                None => selection_of(self@.state) is None,
            },
    {
        let selection = match self.selection() {
            Some(s) => s,
            None => return None,
        };
        let header = match &selection.source {
            GitHistoryDiffSource::Commit { commit_hash, commit_subject } => DiffHeader {
                title_key: "git-history-diff-title",
                source_label: DiffSourceLabel::Commit(
                    commit_source_label(commit_hash.as_str(), commit_subject.as_str()),
                ),
                file_path: copy_string(&selection.file_path),
            },
            GitHistoryDiffSource::WorkingTree { area, .. } => DiffHeader {
                title_key: "git-working-tree-diff-title",
                source_label: DiffSourceLabel::AreaKey(area_label_key(*area)),
                file_path: copy_string(&selection.file_path),
            },
        };
        Some(header)
    }
}

/// The line under the panel's title for a commit diff: the short hash and
/// the commit's subject.
pub fn commit_source_label(commit_hash: &str, commit_subject: &str) -> (label: String)
    ensures
        label@ == hash_prefix(commit_hash@) + " · "@ + commit_subject@,
{
    let mut label = short_commit_hash(commit_hash);
    push_str(&mut label, " · ");
    push_str(&mut label, commit_subject);
    label
}

/// The first eight characters of `hash`.
pub open spec fn hash_prefix(hash: Seq<char>) -> Seq<char> {
    hash.take(if hash.len() < 8 { hash.len() as int } else { 8 })
}

/// A result of the request that an open superseded changes nothing; the
/// result of the request it starts is shown for the file opened.
pub proof fn lemma_open_drops_superseded_result(
    p: DiffPanelState,
    s: SelectionView,
    stale: Result<(Seq<DiffHunk>, bool, bool, bool), Seq<char>>,
    fresh: Result<(Seq<DiffHunk>, bool, bool, bool), Seq<char>>,
)
    ensures
        ({
            let (q, cmds) = spec_open_selection(p, s);
            let r = spec_diff_loaded(q, q.generation, fresh).0;
            &&& spec_diff_loaded(q, p.generation, stale) == (q, Seq::<DiffCommandView>::empty())
            &&& cmds.last() == load_command(s, q.generation)
            &&& selection_of(q.state) == Some(s)
            &&& selection_of(r.state) == Some(s)
            &&& match fresh {
                Ok((hunks, is_binary, is_too_large, bidi)) => r.state == DiffStateView::Loaded {
                    selection: s,
                    hunks: if is_binary || is_too_large {
                        Seq::empty()
                    } else {
                        hunks
                    },
                    is_binary,
                    is_too_large,
                    has_hidden_bidi_chars: bidi,
                },
                Err(message) => r.state == DiffStateView::Error { selection: s, message },
            }
        }),
{
}

/// Whether a panel state keeps hunks only for a diff that is neither
/// binary nor too large.
pub open spec fn no_hunks_unless_text(s: DiffStateView) -> bool {
    match s {
        DiffStateView::Loaded { hunks, is_binary, is_too_large, .. } => (is_binary || is_too_large)
            ==> hunks.len() == 0,
        _ => true,
    }
}

/// A binary or too large diff is never shown with hunks: no operation of
/// the panel gives it any, whatever hunks a result brings.
pub proof fn lemma_no_hunks_for_binary_or_large(
    p: DiffPanelState,
    s: SelectionView,
    generation: u64,
    result: Result<(Seq<DiffHunk>, bool, bool, bool), Seq<char>>,
)
    requires
        no_hunks_unless_text(p.state),
    ensures
        no_hunks_unless_text(DiffStateView::Empty),
        no_hunks_unless_text(spec_diff_loaded(p, generation, result).0.state),
        no_hunks_unless_text(spec_open_selection(p, s).0.state),
        no_hunks_unless_text(spec_clear(p).0.state),
{
}

/// After the panel is cleared it shows nothing, and no result of an
/// earlier request brings a diff back.
pub proof fn lemma_clear_drops_pending_result(
    p: DiffPanelState,
    result: Result<(Seq<DiffHunk>, bool, bool, bool), Seq<char>>,
)
    ensures
        ({
            let q = spec_clear(p).0;
            &&& selection_of(q.state) is None
            &&& spec_diff_loaded(q, p.generation, result) == (q, Seq::<DiffCommandView>::empty())
            &&& spec_diff_loaded(q, q.generation, result) == (q, Seq::<DiffCommandView>::empty())
        }),
{
}

/// A request is aborted exactly when one is superseded while in flight.
pub proof fn lemma_abort_only_while_loading(p: DiffPanelState, s: SelectionView)
    ensures
        spec_open_selection(p, s).1.contains(DiffCommandView::AbortRequest) <==> p.state is Loading,
        spec_clear(p).1.contains(DiffCommandView::AbortRequest) <==> p.state is Loading,
{
    let (_, c1) = spec_open_selection(p, s);
    let (_, c2) = spec_clear(p);
    if p.state is Loading {
        assert(c1[0] == DiffCommandView::AbortRequest);
        assert(c2[0] == DiffCommandView::AbortRequest);
    } else {
        assert(c1 =~= seq![DiffCommandView::EmitUpdated, DiffCommandView::Notify, load_command(s, spec_open_selection(p, s).0.generation)]);
        assert(c2 =~= seq![DiffCommandView::EmitUpdated, DiffCommandView::Notify]);
        assert(!(load_command(s, spec_open_selection(p, s).0.generation) is AbortRequest));
    }
}

} // verus!
