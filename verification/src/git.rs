//! The git data that the sidebar and the diff panel show, and the parsers
//! that read it out of git's machine-readable output.
use vstd::multiset::Multiset;
use vstd::prelude::*;

use crate::diff_state::{is_digit, lemma_decimal_reads_back, lemma_number_at_decimal, number_at, number_at_exec};
use crate::text::decimal;
use crate::git_history::{file_views, FileView};
use crate::text::{
    char_views, chars_equal, chars_of, lemma_split_on_concat, lemma_split_on_extend, lemma_split_on_no_sep, lex_le,
    push_range, split_chars, split_on, string_of,
};

verus! {

/// The separator between the fields of one `git log` record.
pub const FIELD_SEPARATOR: char = '\0';

/// The character that ends each `git log` record.
pub const RECORD_SEPARATOR: char = '\u{1}';

/// One commit of the history list.
#[derive(Clone, Debug, PartialEq, Eq)]
pub struct GitHistoryCommit {
    pub hash: String,
    pub short_hash: String,
    pub author: String,
    pub committed_at: String,
    pub subject: String,
}

/// A commit as plain character sequences.
pub struct CommitView {
    pub hash: Seq<char>,
    pub short_hash: Seq<char>,
    pub author: Seq<char>,
    pub committed_at: Seq<char>,
    pub subject: Seq<char>,
}

impl View for GitHistoryCommit {
    type V = CommitView;

    open spec fn view(&self) -> CommitView {
        CommitView {
            hash: self.hash@,
            short_hash: self.short_hash@,
            author: self.author@,
            committed_at: self.committed_at@,
            subject: self.subject@,
        }
    }
}

/// One page of the history list, and whether older commits remain.
pub struct GitHistoryPage {
    pub commits: Vec<GitHistoryCommit>,
    pub has_more: bool,
}

/// One file that a commit touched, with its line counts.
#[derive(Clone, Debug, PartialEq, Eq)]
pub struct FileChangeEntry {
    pub path: String,
    pub additions: usize,
    pub deletions: usize,
}

/// The patch of one file, as git printed it.
pub struct GitHistoryFileDiff {
    pub patch: String,
    pub is_binary: bool,
    pub is_too_large: bool,
}

/// The page of at most `limit` commits that a request for `limit + 1`
/// commits yields: whether more remain is whether more than `limit` came.
pub fn history_page(commits: Vec<GitHistoryCommit>, limit: usize) -> (page: GitHistoryPage)
    ensures
        page.has_more == (commits@.len() > limit),
        page.commits@ == if commits@.len() > limit {
            commits@.take(limit as int)
        } else {
            commits@
        },
{
    let mut commits = commits;
    let has_more = commits.len() > limit;
    if has_more {
        commits.truncate(limit);
    }
    GitHistoryPage { commits, has_more }
}

/// The views of a sequence of commits.
pub open spec fn commit_views(s: Seq<GitHistoryCommit>) -> Seq<CommitView> {
    s.map_values(|c: GitHistoryCommit| c@)
}

pub open spec fn is_newline(c: char) -> bool {
    c == '\n' || c == '\r'
}

/// `s` without its leading line breaks.
pub open spec fn trim_start_newlines(s: Seq<char>) -> Seq<char>
    decreases s.len(),
{
    if s.len() > 0 && is_newline(s[0]) {
        trim_start_newlines(s.drop_first())
    } else {
        s
    }
}

/// `s` without its trailing line breaks.
pub open spec fn trim_end_newlines(s: Seq<char>) -> Seq<char>
    decreases s.len(),
{
    if s.len() > 0 && is_newline(s.last()) {
        trim_end_newlines(s.drop_last())
    } else {
        s
    }
}

/// The commit that one record holds: a record that is blank once its line
/// breaks are trimmed, or that does not have exactly five fields, holds none.
pub open spec fn commit_of_record(record: Seq<char>) -> Option<CommitView> {
    let t = trim_end_newlines(trim_start_newlines(record));
    let f = split_on(t, FIELD_SEPARATOR);
    if t.len() == 0 || f.len() != 5 {
        None
    } else {
        Some(
            CommitView {
                hash: f[0],
                short_hash: f[1],
                author: f[2],
                committed_at: f[3],
                subject: f[4],
            },
        )
    }
}

/// The commits of a sequence of records, in order.
pub open spec fn commits_of_records(records: Seq<Seq<char>>) -> Seq<CommitView>
    decreases records.len(),
{
    if records.len() == 0 {
        Seq::empty()
    } else {
        let before = commits_of_records(records.drop_last());
        match commit_of_record(records.last()) {
            Some(c) => before.push(c),
            None => before,
        }
    }
}

/// The commits of `git log` output whose records end with
/// `RECORD_SEPARATOR` and whose fields (hash, short hash, author, commit
/// date, subject) are separated by `FIELD_SEPARATOR`.
pub open spec fn spec_parse_commit_history(output: Seq<char>) -> Seq<CommitView> {
    commits_of_records(split_on(output, RECORD_SEPARATOR))
}

fn is_newline_char(c: char) -> (r: bool)
    ensures
        r == is_newline(c),
{
    c == '\n' || c == '\r'
}

/// The bounds of `s` once its leading and trailing line breaks are trimmed.
fn trimmed_bounds(s: &Vec<char>) -> (r: (usize, usize))
    ensures
        r.0 <= r.1 <= s.len(),
        trim_end_newlines(trim_start_newlines(s@)) == s@.subrange(r.0 as int, r.1 as int),
{
    let n = s.len();
    let mut i: usize = 0;
    assert(s@.skip(0) == s@);
    while i < n && is_newline_char(s[i])
        invariant
            i <= n == s.len(),
            trim_start_newlines(s@) == trim_start_newlines(s@.skip(i as int)),
        decreases n - i,
    {
        assert(s@.skip(i as int).drop_first() == s@.skip(i + 1));
        i = i + 1;
    }
    assert(trim_start_newlines(s@.skip(i as int)) == s@.skip(i as int));
    assert(s@.skip(i as int) == s@.subrange(i as int, n as int));
    let mut j: usize = n;
    while j > i && is_newline_char(s[j - 1])
        invariant
            i <= j <= n == s.len(),
            trim_end_newlines(s@.subrange(i as int, n as int)) == trim_end_newlines(
                s@.subrange(i as int, j as int),
            ),
        decreases j,
    {
        assert(s@.subrange(i as int, j as int).drop_last() == s@.subrange(i as int, j - 1));
        j = j - 1;
    }
    (i, j)
}

/// The string made of all of `v`.
pub fn whole_string(v: &Vec<char>) -> (s: String)
    ensures
        s@ == v@,
{
    let s = string_of(v, 0, v.len());
    assert(v@.subrange(0, v.len() as int) == v@);
    s
}

/// The commit that `record[from..to]` holds, if any (see `commit_of_record`).
fn commit_of(record: &Vec<char>) -> (r: Option<GitHistoryCommit>)
    ensures
        r matches Some(c) ==> commit_of_record(record@) == Some(c@),
        r is None ==> commit_of_record(record@) is None,
{
    let (from, to) = trimmed_bounds(record);
    if from == to {
        return None;
    }
    let mut trimmed: Vec<char> = Vec::new();
    let mut k: usize = from;
    while k < to
        invariant
            from <= k <= to <= record.len(),
            trimmed@ == record@.subrange(from as int, k as int),
        decreases to - k,
    {
        trimmed.push(record[k]);
        assert(record@.subrange(from as int, k + 1) == record@.subrange(from as int, k as int).push(
            record@[k as int],
        ));
        k = k + 1;
    }
    let fields = split_chars(&trimmed, FIELD_SEPARATOR);
    if fields.len() != 5 {
        return None;
    }
    assert(char_views(fields@)[0] == fields@[0]@);
    assert(char_views(fields@)[1] == fields@[1]@);
    assert(char_views(fields@)[2] == fields@[2]@);
    assert(char_views(fields@)[3] == fields@[3]@);
    assert(char_views(fields@)[4] == fields@[4]@);
    let hash = whole_string(&fields[0]);
    let short_hash = whole_string(&fields[1]);
    let author = whole_string(&fields[2]);
    let committed_at = whole_string(&fields[3]);
    let subject = whole_string(&fields[4]);
    assert(trimmed@ == trim_end_newlines(trim_start_newlines(record@)));
    Some(GitHistoryCommit { hash, short_hash, author, committed_at, subject })
}

/// Reads the commits out of `git log` output (see
/// `spec_parse_commit_history`); blank or malformed records are skipped.
pub fn parse_commit_history(output: &str) -> (commits: Vec<GitHistoryCommit>)
    ensures
        commit_views(commits@) == spec_parse_commit_history(output@),
{
    let chars = chars_of(output);
    let records = split_chars(&chars, RECORD_SEPARATOR);
    let ghost rs = char_views(records@);
    let mut commits: Vec<GitHistoryCommit> = Vec::new();
    let mut i: usize = 0;
    while i < records.len()
        invariant
            i <= records.len(),
            rs == char_views(records@),
            commit_views(commits@) == commits_of_records(rs.take(i as int)),
        decreases records.len() - i,
    {
        assert(rs.take(i + 1).drop_last() == rs.take(i as int));
        assert(rs.take(i + 1).last() == records@[i as int]@);
        match commit_of(&records[i]) {
            Some(c) => {
                commits.push(c);
                assert(commit_views(commits@) == commit_views(commits@.drop_last()).push(c@));
            },
            None => {},
        }
        i = i + 1;
    }
    assert(rs.take(records.len() as int) == rs);
    commits
}


/// Which side of the index a working-tree change is on.
#[derive(Clone, Copy, Debug, PartialEq, Eq, Hash, Structural)]
pub enum GitWorkingTreeArea {
    Staged,
    Unstaged,
}

/// How a file differs on one side of the index.
#[derive(Clone, Debug, PartialEq, Eq)]
pub enum GitWorkingTreeChangeStatus {
    Added,
    Modified,
    Deleted,
    Renamed { old_path: String },
    Copied { old_path: String },
    Untracked,
    Conflicted,
}

/// A status as plain values.
pub enum StatusView {
    Added,
    Modified,
    Deleted,
    Renamed(Seq<char>),
    Copied(Seq<char>),
    Untracked,
    Conflicted,
}

impl View for GitWorkingTreeChangeStatus {
    type V = StatusView;

    open spec fn view(&self) -> StatusView {
        match self {
            GitWorkingTreeChangeStatus::Added => StatusView::Added,
            GitWorkingTreeChangeStatus::Modified => StatusView::Modified,
            GitWorkingTreeChangeStatus::Deleted => StatusView::Deleted,
            GitWorkingTreeChangeStatus::Renamed { old_path } => StatusView::Renamed(old_path@),
            GitWorkingTreeChangeStatus::Copied { old_path } => StatusView::Copied(old_path@),
            GitWorkingTreeChangeStatus::Untracked => StatusView::Untracked,
            GitWorkingTreeChangeStatus::Conflicted => StatusView::Conflicted,
        }
    }
}

/// One changed file on one side of the index.
#[derive(Clone, Debug, PartialEq, Eq)]
pub struct GitWorkingTreeChange {
    pub path: String,
    pub status: GitWorkingTreeChangeStatus,
}

/// A change as plain values.
pub struct ChangeView {
    pub path: Seq<char>,
    pub status: StatusView,
}

impl View for GitWorkingTreeChange {
    type V = ChangeView;

    open spec fn view(&self) -> ChangeView {
        ChangeView { path: self.path@, status: self.status@ }
    }
}

/// The views of a sequence of changes.
pub open spec fn change_views(s: Seq<GitWorkingTreeChange>) -> Seq<ChangeView> {
    s.map_values(|c: GitWorkingTreeChange| c@)
}

/// The staged and the unstaged changes of a working tree, each sorted by
/// path.
#[derive(Clone, Debug, PartialEq, Eq)]
pub struct GitWorkingTreeChanges {
    pub staged: Vec<GitWorkingTreeChange>,
    pub unstaged: Vec<GitWorkingTreeChange>,
}

/// The kinds of status, without the old path of a rename or copy.
#[derive(Clone, Copy, Debug, PartialEq, Eq, Structural)]
pub enum StatusCode {
    Added,
    Modified,
    Deleted,
    Renamed,
    Copied,
    Untracked,
    Conflicted,
}

/// The status that a letter of the `XY` field of `git status
/// --porcelain=v2` stands for; `.` and unknown letters stand for none.
pub open spec fn letter_code(letter: char) -> Option<StatusCode> {
    if letter == 'M' || letter == 'T' {
        Some(StatusCode::Modified)
    } else if letter == 'A' {
        Some(StatusCode::Added)
    } else if letter == 'D' {
        Some(StatusCode::Deleted)
    } else if letter == 'R' {
        Some(StatusCode::Renamed)
    } else if letter == 'C' {
        Some(StatusCode::Copied)
    } else if letter == 'U' {
        Some(StatusCode::Conflicted)
    } else {
        None
    }
}

/// The status of a kind, with `old_path` for a rename or copy.
pub open spec fn code_view(code: StatusCode, old_path: Seq<char>) -> StatusView {
    match code {
        StatusCode::Added => StatusView::Added,
        StatusCode::Modified => StatusView::Modified,
        StatusCode::Deleted => StatusView::Deleted,
        StatusCode::Renamed => StatusView::Renamed(old_path),
        StatusCode::Copied => StatusView::Copied(old_path),
        StatusCode::Untracked => StatusView::Untracked,
        StatusCode::Conflicted => StatusView::Conflicted,
    }
}

/// What follows the `n`th space of `e`, if `e` has that many spaces.
pub open spec fn after_fields(e: Seq<char>, n: nat) -> Option<Seq<char>>
    decreases e.len(),
{
    if n == 0 {
        Some(e)
    } else if e.len() == 0 {
        None
    } else if e[0] == ' ' {
        after_fields(e.drop_first(), (n - 1) as nat)
    } else {
        after_fields(e.drop_first(), n)
    }
}

/// The change of `path` with the status that `letter` stands for, if any.
pub open spec fn letter_change(letter: char, path: Seq<char>, old_path: Seq<char>) -> Seq<ChangeView> {
    match letter_code(letter) {
        Some(code) => seq![ChangeView { path, status: code_view(code, old_path) }],
        None => Seq::empty(),
    }
}

/// The staged changes, the unstaged changes, and the number of entries
/// that entry `i` of `git status --porcelain=v2 -z` output accounts for:
/// an ordinary entry (`1`) has its path after eight fields, a rename or copy
/// (`2`) after nine, with the old path in the next entry; an unmerged entry
/// (`u`) has its path after ten fields and is an unstaged conflict; an
/// untracked entry (`?`) is an unstaged change; other entries add nothing.
pub open spec fn parse_entry(es: Seq<Seq<char>>, i: int) -> (Seq<ChangeView>, Seq<ChangeView>, int) {
    let e = es[i];
    let none = Seq::<ChangeView>::empty();
    if e.len() >= 4 && e[1] == ' ' && e[0] == '1' {
        match after_fields(e, 8) {
            Some(path) => (
                letter_change(e[2], path, Seq::empty()),
                letter_change(e[3], path, Seq::empty()),
                1,
            ),
            None => (none, none, 1),
        }
    } else if e.len() >= 4 && e[1] == ' ' && e[0] == '2' {
        let has_old = i + 1 < es.len();
        let old_path = if has_old { es[i + 1] } else { Seq::<char>::empty() };
        let consumed = if has_old { 2int } else { 1int };
        match after_fields(e, 9) {
            Some(path) => (
                letter_change(e[2], path, old_path),
                letter_change(e[3], path, old_path),
                consumed,
            ),
            None => (none, none, consumed),
        }
    } else if e.len() >= 2 && e[1] == ' ' && e[0] == 'u' {
        match after_fields(e, 10) {
            Some(path) => (none, seq![ChangeView { path, status: StatusView::Conflicted }], 1),
            None => (none, none, 1),
        }
    } else if e.len() >= 2 && e[1] == ' ' && e[0] == '?' {
        (none, seq![ChangeView { path: e.skip(2), status: StatusView::Untracked }], 1)
    } else {
        (none, none, 1)
    }
}

/// The staged and unstaged changes of entries `i..` in the order of the
/// entries.
pub open spec fn parse_entries_from(es: Seq<Seq<char>>, i: int) -> (Seq<ChangeView>, Seq<ChangeView>)
    decreases es.len() - i,
{
    if i < 0 || i >= es.len() {
        (Seq::empty(), Seq::empty())
    } else {
        let (s, u, k) = parse_entry(es, i);
        let (rs, ru) = parse_entries_from(es, i + k);
        (s + rs, u + ru)
    }
}

/// `x` inserted into `s` after every element whose path sorts before or
/// equal to its own path, scanning from the back.
pub open spec fn insert_by_path(s: Seq<ChangeView>, x: ChangeView) -> Seq<ChangeView>
    decreases s.len(),
{
    if s.len() == 0 {
        seq![x]
    } else if lex_le(s.last().path, x.path) {
        s.push(x)
    } else {
        insert_by_path(s.drop_last(), x).push(s.last())
    }
}

/// `s` sorted by path, stably.
pub open spec fn sort_by_path(s: Seq<ChangeView>) -> Seq<ChangeView>
    decreases s.len(),
{
    if s.len() == 0 {
        Seq::empty()
    } else {
        insert_by_path(sort_by_path(s.drop_last()), s.last())
    }
}

/// The staged and the unstaged changes that `git status --porcelain=v2 -z`
/// output lists, each sorted by path.
pub open spec fn spec_parse_working_tree_changes(output: Seq<char>) -> (Seq<ChangeView>, Seq<ChangeView>) {
    let (s, u) = parse_entries_from(split_on(output, '\0'), 0);
    (sort_by_path(s), sort_by_path(u))
}

/// A change whose path is the tail of entry `entry` from `path_from` on,
/// and whose old path, for a rename or copy, is entry `old_entry`.
#[derive(Clone, Copy)]
struct ChangeRef {
    entry: usize,
    path_from: usize,
    code: StatusCode,
    old_entry: usize,
    has_old: bool,
}

spec fn ref_view(es: Seq<Seq<char>>, r: ChangeRef) -> ChangeView {
    ChangeView {
        path: es[r.entry as int].skip(r.path_from as int),
        status: code_view(r.code, if r.has_old { es[r.old_entry as int] } else { Seq::empty() }),
    }
}

spec fn ref_views(es: Seq<Seq<char>>, rs: Seq<ChangeRef>) -> Seq<ChangeView> {
    rs.map_values(|r: ChangeRef| ref_view(es, r))
}

spec fn ref_ok(es: Seq<Seq<char>>, r: ChangeRef) -> bool {
    &&& r.entry < es.len()
    &&& r.path_from <= es[r.entry as int].len()
    &&& r.has_old ==> r.old_entry < es.len()
}

spec fn refs_ok(es: Seq<Seq<char>>, rs: Seq<ChangeRef>) -> bool {
    forall|k: int| 0 <= k < rs.len() ==> ref_ok(es, #[trigger] rs[k])
}

fn letter_code_of(letter: char) -> (r: Option<StatusCode>)
    ensures
        r == letter_code(letter),
{
    if letter == 'M' || letter == 'T' {
        Some(StatusCode::Modified)
    } else if letter == 'A' {
        Some(StatusCode::Added)
    } else if letter == 'D' {
        Some(StatusCode::Deleted)
    } else if letter == 'R' {
        Some(StatusCode::Renamed)
    } else if letter == 'C' {
        Some(StatusCode::Copied)
    } else if letter == 'U' {
        Some(StatusCode::Conflicted)
    } else {
        None
    }
}

/// Where the text after the `n`th space of `e` starts.
fn after_fields_at(e: &Vec<char>, n: usize) -> (r: Option<usize>)
    ensures
        r matches Some(k) ==> k <= e.len() && after_fields(e@, n as nat) == Some(e@.skip(k as int)),
        r is None ==> after_fields(e@, n as nat) is None,
{
    let mut i: usize = 0;
    let mut left: usize = n;
    assert(e@.skip(0) == e@);
    while i < e.len() && left > 0
        invariant
            i <= e.len(),
            left <= n,
            after_fields(e@, n as nat) == after_fields(e@.skip(i as int), left as nat),
        decreases e.len() - i,
    {
        assert(e@.skip(i as int).drop_first() == e@.skip(i + 1));
        if e[i] == ' ' {
            left = left - 1;
        }
        i = i + 1;
    }
    if left == 0 {
        Some(i)
    } else {
        None
    }
}

/// Appends the change that `letter` stands for, if any.
fn push_letter_change(
    out: &mut Vec<ChangeRef>,
    Ghost(es): Ghost<Seq<Seq<char>>>,
    letter: char,
    entry: usize,
    path_from: usize,
    old_entry: usize,
    has_old: bool,
)
    requires
        entry < es.len(),
        path_from <= es[entry as int].len(),
        has_old ==> old_entry < es.len(),
        refs_ok(es, old(out)@),
    ensures
        refs_ok(es, final(out)@),
        ref_views(es, final(out)@) == ref_views(es, old(out)@) + letter_change(
            letter,
            es[entry as int].skip(path_from as int),
            if has_old { es[old_entry as int] } else { Seq::empty() },
        ),
{
    let ghost before = out@;
    match letter_code_of(letter) {
        Some(code) => {
            let r = ChangeRef { entry, path_from, code, old_entry, has_old };
            out.push(r);
            assert(ref_views(es, out@) =~= ref_views(es, before).push(ref_view(es, r)));
        },
        None => {
            assert(ref_views(es, out@) =~= ref_views(es, before) + Seq::<ChangeView>::empty());
        },
    }
}

/// Whether the tail of `a` from `i` sorts before or equal to the tail of
/// `b` from `j`.
fn tail_le(a: &Vec<char>, i: usize, b: &Vec<char>, j: usize) -> (r: bool)
    requires
        i <= a.len(),
        j <= b.len(),
    ensures
        r == lex_le(a@.skip(i as int), b@.skip(j as int)),
{
    let mut x = i;
    let mut y = j;
    while x < a.len() && y < b.len()
        invariant
            i <= x <= a.len(),
            j <= y <= b.len(),
            lex_le(a@.skip(i as int), b@.skip(j as int)) == lex_le(a@.skip(x as int), b@.skip(y as int)),
        decreases a.len() - x,
    {
        let ca = a[x] as u32;
        let cb = b[y] as u32;
        if ca < cb {
            return true;
        }
        if ca > cb {
            return false;
        }
        assert(a@.skip(x as int).drop_first() == a@.skip(x + 1));
        assert(b@.skip(y as int).drop_first() == b@.skip(y + 1));
        x = x + 1;
        y = y + 1;
    }
    x == a.len()
}

proof fn lemma_insert_step(s: Seq<ChangeView>, x: ChangeView, j: int)
    requires
        0 < j <= s.len(),
        !lex_le(s[j - 1].path, x.path),
    ensures
        insert_by_path(s.take(j), x) + s.skip(j) == insert_by_path(s.take(j - 1), x) + s.skip(j - 1),
{
    assert(s.take(j).drop_last() == s.take(j - 1));
    assert(s.take(j).last() == s[j - 1]);
    assert(insert_by_path(s.take(j), x) == insert_by_path(s.take(j - 1), x).push(s[j - 1]));
    assert(s.skip(j - 1) == seq![s[j - 1]] + s.skip(j));
    assert(insert_by_path(s.take(j - 1), x).push(s[j - 1]) + s.skip(j) =~= insert_by_path(
        s.take(j - 1),
        x,
    ) + (seq![s[j - 1]] + s.skip(j)));
}

/// Inserts `x` into `out` where `insert_by_path` puts it.
fn insert_ref(out: &mut Vec<ChangeRef>, es_vec: &Vec<Vec<char>>, Ghost(es): Ghost<Seq<Seq<char>>>, x: ChangeRef)
    requires
        es == char_views(es_vec@),
        refs_ok(es, old(out)@),
        ref_ok(es, x),
    ensures
        refs_ok(es, final(out)@),
        ref_views(es, final(out)@) == insert_by_path(ref_views(es, old(out)@), ref_view(es, x)),
{
    let ghost s = ref_views(es, out@);
    let ghost xv = ref_view(es, x);
    let mut j: usize = out.len();
    assert(s.take(j as int) == s);
    assert(s.skip(j as int) =~= Seq::<ChangeView>::empty());
    loop
        invariant
            es == char_views(es_vec@),
            refs_ok(es, out@),
            s == ref_views(es, out@),
            xv == ref_view(es, x),
            ref_ok(es, x),
            j <= out.len(),
            insert_by_path(s, xv) == insert_by_path(s.take(j as int), xv) + s.skip(j as int),
        ensures
            j <= out.len(),
            insert_by_path(s, xv) == insert_by_path(s.take(j as int), xv) + s.skip(j as int),
            j == 0 || lex_le(s[j - 1].path, xv.path),
        decreases j,
    {
        if j == 0 {
            break;
        }
        let prev = out[j - 1];
        assert(ref_ok(es, out@[j - 1]));
        let le = tail_le(&es_vec[prev.entry], prev.path_from, &es_vec[x.entry], x.path_from);
        if le {
            break;
        }
        proof {
            lemma_insert_step(s, xv, j as int);
        }
        j = j - 1;
    }
    proof {
        if j == 0 {
            assert(s.take(0) =~= Seq::<ChangeView>::empty());
            assert(insert_by_path(s.take(0), xv) == seq![xv]);
            assert(seq![xv] =~= s.take(0).push(xv));
        } else {
            assert(s.take(j as int).last() == s[j - 1]);
            assert(insert_by_path(s.take(j as int), xv) == s.take(j as int).push(xv));
        }
    }
    let ghost before = out@;
    out.insert(j, x);
    assert(ref_views(es, out@) =~= s.take(j as int).push(xv) + s.skip(j as int));
    assert forall|k: int| 0 <= k < out@.len() implies ref_ok(es, #[trigger] out@[k]) by {
        if k < j {
            assert(out@[k] == before[k]);
        } else if k > j {
            assert(out@[k] == before[k - 1]);
        }
    }
}

/// `refs` sorted by the paths they point at (see `sort_by_path`).
fn sort_refs(refs: &Vec<ChangeRef>, es_vec: &Vec<Vec<char>>, Ghost(es): Ghost<Seq<Seq<char>>>) -> (out: Vec<ChangeRef>)
    requires
        es == char_views(es_vec@),
        refs_ok(es, refs@),
    ensures
        refs_ok(es, out@),
        ref_views(es, out@) == sort_by_path(ref_views(es, refs@)),
{
    let ghost all = ref_views(es, refs@);
    let mut out: Vec<ChangeRef> = Vec::new();
    let mut k: usize = 0;
    assert(all.take(0) =~= Seq::<ChangeView>::empty());
    while k < refs.len()
        invariant
            es == char_views(es_vec@),
            refs_ok(es, refs@),
            refs_ok(es, out@),
            all == ref_views(es, refs@),
            k <= refs.len(),
            ref_views(es, out@) == sort_by_path(all.take(k as int)),
        decreases refs.len() - k,
    {
        assert(ref_ok(es, refs@[k as int]));
        insert_ref(&mut out, es_vec, Ghost(es), refs[k]);
        assert(all.take(k + 1).drop_last() == all.take(k as int));
        assert(all.take(k + 1).last() == all[k as int]);
        k = k + 1;
    }
    assert(all.take(refs.len() as int) == all);
    out
}

/// The changes that `refs` point at.
fn build_changes(refs: &Vec<ChangeRef>, es_vec: &Vec<Vec<char>>, Ghost(es): Ghost<Seq<Seq<char>>>) -> (out: Vec<GitWorkingTreeChange>)
    requires
        es == char_views(es_vec@),
        refs_ok(es, refs@),
    ensures
        change_views(out@) == ref_views(es, refs@),
{
    let mut out: Vec<GitWorkingTreeChange> = Vec::new();
    let mut k: usize = 0;
    while k < refs.len()
        invariant
            es == char_views(es_vec@),
            refs_ok(es, refs@),
            k <= refs.len(),
            change_views(out@) == ref_views(es, refs@).take(k as int),
        decreases refs.len() - k,
    {
        let r = refs[k];
        assert(ref_ok(es, refs@[k as int]));
        let e = &es_vec[r.entry];
        let path = string_of(e, r.path_from, e.len());
        assert(e@.subrange(r.path_from as int, e.len() as int) == e@.skip(r.path_from as int));
        let old_path = if r.has_old {
            whole_string(&es_vec[r.old_entry])
        } else {
            String::new()
        };
        let status = match r.code {
            StatusCode::Added => GitWorkingTreeChangeStatus::Added,
            StatusCode::Modified => GitWorkingTreeChangeStatus::Modified,
            StatusCode::Deleted => GitWorkingTreeChangeStatus::Deleted,
            StatusCode::Renamed => GitWorkingTreeChangeStatus::Renamed { old_path },
            StatusCode::Copied => GitWorkingTreeChangeStatus::Copied { old_path },
            StatusCode::Untracked => GitWorkingTreeChangeStatus::Untracked,
            StatusCode::Conflicted => GitWorkingTreeChangeStatus::Conflicted,
        };
        let c = GitWorkingTreeChange { path, status };
        assert(c@ == ref_view(es, r));
        let ghost before = out@;
        out.push(c);
        assert(change_views(out@) =~= change_views(before).push(c@));
        assert(ref_views(es, refs@).take(k + 1) =~= ref_views(es, refs@).take(k as int).push(
            ref_view(es, r),
        ));
        k = k + 1;
    }
    assert(ref_views(es, refs@).take(refs.len() as int) =~= ref_views(es, refs@));
    out
}

/// Reads the staged and unstaged changes out of `git status
/// --porcelain=v2 -z` output (see `spec_parse_working_tree_changes`).
pub fn parse_working_tree_changes(output: &str) -> (changes: GitWorkingTreeChanges)
    ensures
        change_views(changes.staged@) == spec_parse_working_tree_changes(output@).0,
        change_views(changes.unstaged@) == spec_parse_working_tree_changes(output@).1,
{
    let chars = chars_of(output);
    let es_vec = split_chars(&chars, '\0');
    let ghost es = char_views(es_vec@);
    let ghost total = parse_entries_from(es, 0);
    let mut staged: Vec<ChangeRef> = Vec::new();
    let mut unstaged: Vec<ChangeRef> = Vec::new();
    let mut i: usize = 0;
    while i < es_vec.len()
        invariant
            es == char_views(es_vec@),
            total == parse_entries_from(es, 0),
            i <= es_vec.len(),
            refs_ok(es, staged@),
            refs_ok(es, unstaged@),
            ref_views(es, staged@) + parse_entries_from(es, i as int).0 == total.0,
            ref_views(es, unstaged@) + parse_entries_from(es, i as int).1 == total.1,
        decreases es_vec.len() - i,
    {
        let e = &es_vec[i];
        let n = e.len();
        let ghost ev = es[i as int];
        assert(ev == e@);
        let ghost before_s = ref_views(es, staged@);
        let ghost before_u = ref_views(es, unstaged@);
        let ghost step = parse_entry(es, i as int);
        let ghost rest = parse_entries_from(es, i + step.2);
        let mut consumed: usize = 1;
        if n >= 4 && e[1] == ' ' && e[0] == '1' {
            match after_fields_at(e, 8) {
                Some(from) => {
                    push_letter_change(&mut staged, Ghost(es), e[2], i, from, 0, false);
                    push_letter_change(&mut unstaged, Ghost(es), e[3], i, from, 0, false);
                },
                None => {},
            }
        } else if n >= 4 && e[1] == ' ' && e[0] == '2' {
            let has_old = i + 1 < es_vec.len();
            if has_old {
                consumed = 2;
            }
            match after_fields_at(e, 9) {
                Some(from) => {
                    push_letter_change(&mut staged, Ghost(es), e[2], i, from, i + 1, has_old);
                    push_letter_change(&mut unstaged, Ghost(es), e[3], i, from, i + 1, has_old);
                },
                None => {},
            }
        } else if n >= 2 && e[1] == ' ' && e[0] == 'u' {
            match after_fields_at(e, 10) {
                Some(from) => {
                    let r = ChangeRef {
                        entry: i,
                        path_from: from,
                        code: StatusCode::Conflicted,
                        old_entry: 0,
                        has_old: false,
                    };
                    unstaged.push(r);
                    assert(ref_views(es, unstaged@) =~= before_u.push(ref_view(es, r)));
                },
                None => {},
            }
        } else if n >= 2 && e[1] == ' ' && e[0] == '?' {
            let r = ChangeRef {
                entry: i,
                path_from: 2,
                code: StatusCode::Untracked,
                old_entry: 0,
                has_old: false,
            };
            unstaged.push(r);
            assert(ref_views(es, unstaged@) =~= before_u.push(ref_view(es, r)));
        }
        assert(consumed == step.2);
        assert(ref_views(es, staged@) == before_s + step.0);
        assert(ref_views(es, unstaged@) == before_u + step.1);
        assert(parse_entries_from(es, i as int).0 == step.0 + rest.0);
        assert(parse_entries_from(es, i as int).1 == step.1 + rest.1);
        assert(before_s + step.0 + rest.0 == before_s + (step.0 + rest.0));
        assert(before_u + step.1 + rest.1 == before_u + (step.1 + rest.1));
        i = i + consumed;
    }
    assert(ref_views(es, staged@) == total.0);
    assert(ref_views(es, unstaged@) == total.1);
    let staged_sorted = sort_refs(&staged, &es_vec, Ghost(es));
    let unstaged_sorted = sort_refs(&unstaged, &es_vec, Ghost(es));
    GitWorkingTreeChanges {
        staged: build_changes(&staged_sorted, &es_vec, Ghost(es)),
        unstaged: build_changes(&unstaged_sorted, &es_vec, Ghost(es)),
    }
}

impl Default for GitWorkingTreeChanges {
    /// No staged and no unstaged changes.
    fn default() -> (changes: Self)
        ensures
            changes.staged@.len() == 0,
            changes.unstaged@.len() == 0,
    {
        GitWorkingTreeChanges { staged: Vec::new(), unstaged: Vec::new() }
    }
}

/// The paths of a sequence of changes, as a set.
pub open spec fn path_set(s: Seq<GitWorkingTreeChange>) -> Set<Seq<char>> {
    s.map_values(|c: GitWorkingTreeChange| c.path@).to_set()
}

impl GitWorkingTreeChanges {
    /// The number of distinct paths among the staged and the unstaged
    /// changes: a file with both staged and unstaged changes counts once.
    pub fn changed_file_count(&self) -> (count: usize)
        ensures
            count == (path_set(self.staged@) + path_set(self.unstaged@)).len(),
    {
        let mut distinct: Vec<Vec<char>> = Vec::new();
        assert(char_views(distinct@).to_set() =~= Set::<Seq<char>>::empty());
        add_distinct_paths(&mut distinct, &self.staged);
        add_distinct_paths(&mut distinct, &self.unstaged);
        proof {
            assert(Set::<Seq<char>>::empty() + path_set(self.staged@) =~= path_set(self.staged@));
            char_views(distinct@).unique_seq_to_set();
        }
        distinct.len()
    }
}

/// Adds to `distinct` the paths of `changes` that it does not hold yet.
fn add_distinct_paths(distinct: &mut Vec<Vec<char>>, changes: &Vec<GitWorkingTreeChange>)
    requires
        char_views(old(distinct)@).no_duplicates(),
    ensures
        char_views(final(distinct)@).no_duplicates(),
        char_views(final(distinct)@).to_set() == char_views(old(distinct)@).to_set() + path_set(
            changes@,
        ),
{
    let ghost start = char_views(distinct@).to_set();
    let ghost all = changes@.map_values(|c: GitWorkingTreeChange| c.path@);
    let mut k: usize = 0;
    assert(all.take(0).to_set() =~= Set::<Seq<char>>::empty());
    assert(start + Set::<Seq<char>>::empty() =~= start);
    while k < changes.len()
        invariant
            all == changes@.map_values(|c: GitWorkingTreeChange| c.path@),
            k <= changes.len(),
            char_views(distinct@).to_set() == start + all.take(k as int).to_set(),
            char_views(distinct@).no_duplicates(),
        decreases changes.len() - k,
    {
        let path = chars_of(changes[k].path.as_str());
        assert(path@ == all[k as int]);
        let ghost before = char_views(distinct@);
        let seen = contains_chars(distinct, &path);
        proof {
            all.take(k as int).lemma_push_to_set_commute(all[k as int]);
            assert(all.take(k + 1) == all.take(k as int).push(all[k as int]));
        }
        if !seen {
            distinct.push(path);
            assert(char_views(distinct@) =~= before.push(path@));
            proof {
                before.lemma_push_to_set_commute(path@);
            }
            assert(before.to_set().insert(path@) =~= start + all.take(k + 1).to_set());
        } else {
            assert(before.to_set() =~= start + all.take(k + 1).to_set());
        }
        k = k + 1;
    }
    assert(all.take(changes.len() as int) == all);
}

/// Whether `path` is one of the character vectors of `v`.
fn contains_chars(v: &Vec<Vec<char>>, path: &Vec<char>) -> (r: bool)
    ensures
        r == char_views(v@).contains(path@),
{
    let mut i: usize = 0;
    while i < v.len()
        invariant
            i <= v.len(),
            forall|k: int| 0 <= k < i ==> char_views(v@)[k] != path@,
        decreases v.len() - i,
    {
        if chars_equal(&v[i], path) {
            assert(char_views(v@)[i as int] == path@);
            return true;
        }
        i = i + 1;
    }
    false
}

/// The first index at or after `from` where `s` holds `c`.
pub open spec fn find_char_from(s: Seq<char>, c: char, from: int) -> Option<int>
    decreases s.len() - from,
{
    if from < 0 || from >= s.len() {
        None
    } else if s[from] == c {
        Some(from)
    } else {
        find_char_from(s, c, from + 1)
    }
}

/// Whether `s` holds ` => ` at `i`.
pub open spec fn is_arrow_at(s: Seq<char>, i: int) -> bool {
    &&& 0 <= i
    &&& i + 4 <= s.len()
    &&& s[i] == ' '
    &&& s[i + 1] == '='
    &&& s[i + 2] == '>'
    &&& s[i + 3] == ' '
}

/// The first index at or after `from` where `s` holds ` => `.
pub open spec fn find_arrow_from(s: Seq<char>, from: int) -> Option<int>
    decreases s.len() - from,
{
    if from < 0 || from >= s.len() {
        None
    } else if is_arrow_at(s, from) {
        Some(from)
    } else {
        find_arrow_from(s, from + 1)
    }
}

/// The braces and arrow of a rename shown as `prefix{old => new}suffix`.
pub open spec fn brace_rename(p: Seq<char>) -> Option<(int, int, int)> {
    match find_char_from(p, '{', 0) {
        Some(l) => match find_arrow_from(p, l + 1) {
            Some(a) => match find_char_from(p, '}', a + 4) {
                Some(r) => Some((l, a, r)),
                None => None,
            },
            None => None,
        },
        None => None,
    }
}

/// The paths that a file of a commit's file list stands for: both sides of
/// a rename shown as `prefix{old => new}suffix` or `old => new`, otherwise
/// the path itself.
pub open spec fn spec_commit_file_diff_paths(p: Seq<char>) -> Seq<Seq<char>> {
    match brace_rename(p) {
        Some((l, a, r)) => seq![
            p.take(l) + p.subrange(l + 1, a) + p.skip(r + 1),
            p.take(l) + p.subrange(a + 4, r) + p.skip(r + 1),
        ],
        None => match find_arrow_from(p, 0) {
            Some(a) => seq![p.take(a), p.skip(a + 4)],
            None => seq![p],
        },
    }
}

fn find_char_at(s: &Vec<char>, c: char, from: usize) -> (r: Option<usize>)
    ensures
        r matches Some(k) ==> find_char_from(s@, c, from as int) == Some(k as int) && from <= k < s.len(),
        r is None ==> find_char_from(s@, c, from as int) is None,
{
    let mut i = from;
    while i < s.len()
        invariant
            from <= i,
            find_char_from(s@, c, from as int) == find_char_from(s@, c, i as int),
        decreases s.len() - i,
    {
        if s[i] == c {
            return Some(i);
        }
        i = i + 1;
    }
    None
}

fn find_arrow_at(s: &Vec<char>, from: usize) -> (r: Option<usize>)
    ensures
        r matches Some(k) ==> find_arrow_from(s@, from as int) == Some(k as int) && from <= k && k + 4
            <= s.len(),
        r is None ==> find_arrow_from(s@, from as int) is None,
{
    let mut i = from;
    while i < s.len()
        invariant
            from <= i,
            find_arrow_from(s@, from as int) == find_arrow_from(s@, i as int),
        decreases s.len() - i,
    {
        if s.len() - i >= 4 && s[i] == ' ' && s[i + 1] == '=' && s[i + 2] == '>' && s[i + 3] == ' ' {
            return Some(i);
        }
        i = i + 1;
    }
    None
}

/// The string `v[..a] + v[b..c] + v[d..]`.
fn join_three(v: &Vec<char>, a: usize, b: usize, c: usize, d: usize) -> (s: String)
    requires
        a <= v.len(),
        b <= c <= v.len(),
        d <= v.len(),
    ensures
        s@ == v@.take(a as int) + v@.subrange(b as int, c as int) + v@.skip(d as int),
{
    let mut s = string_of(v, 0, a);
    push_range(&mut s, v, b, c);
    push_range(&mut s, v, d, v.len());
    assert(v@.subrange(0, a as int) == v@.take(a as int));
    assert(v@.subrange(d as int, v.len() as int) == v@.skip(d as int));
    s
}

/// The paths that a file of a commit's file list stands for (see
/// `spec_commit_file_diff_paths`): a rename yields its old and its new path.
pub fn commit_file_diff_paths(path: &str) -> (paths: Vec<String>)
    ensures
        paths@.map_values(|s: String| s@) == spec_commit_file_diff_paths(path@),
{
    let p = chars_of(path);
    let mut paths: Vec<String> = Vec::new();
    let brace = match find_char_at(&p, '{', 0) {
        Some(l) => match find_arrow_at(&p, l + 1) {
            Some(a) => match find_char_at(&p, '}', a + 4) {
                Some(r) => Some((l, a, r)),
                None => None,
            },
            None => None,
        },
        None => None,
    };
    match brace {
        Some((l, a, r)) => {
            paths.push(join_three(&p, l, l + 1, a, r + 1));
            paths.push(join_three(&p, l, a + 4, r, r + 1));
        },
        None => match find_arrow_at(&p, 0) {
            Some(a) => {
                paths.push(string_of(&p, 0, a));
                paths.push(string_of(&p, a + 4, p.len()));
                assert(p@.subrange(0, a as int) == p@.take(a as int));
                assert(p@.subrange(a + 4, p.len() as int) == p@.skip(a + 4));
            },
            None => {
                paths.push(whole_string(&p));
            },
        },
    }
    assert(paths@.map_values(|s: String| s@) =~= spec_commit_file_diff_paths(path@));
    paths
}

/// Every path sorts before or equal to the paths after it.
pub open spec fn sorted_by_path(s: Seq<ChangeView>) -> bool {
    forall|i: int, j: int| 0 <= i < j < s.len() ==> lex_le(#[trigger] s[i].path, #[trigger] s[j].path)
}

pub proof fn lemma_lex_total(a: Seq<char>, b: Seq<char>)
    ensures
        lex_le(a, b) || lex_le(b, a),
    decreases a.len(),
{
    if a.len() > 0 && b.len() > 0 && (a[0] as u32) == (b[0] as u32) {
        lemma_lex_total(a.drop_first(), b.drop_first());
    }
}

pub proof fn lemma_lex_trans(a: Seq<char>, b: Seq<char>, c: Seq<char>)
    requires
        lex_le(a, b),
        lex_le(b, c),
    ensures
        lex_le(a, c),
    decreases a.len(),
{
    if a.len() > 0 {
        if (a[0] as u32) == (b[0] as u32) && (b[0] as u32) == (c[0] as u32) {
            lemma_lex_trans(a.drop_first(), b.drop_first(), c.drop_first());
        }
    }
}

proof fn lemma_insert_by_path(s: Seq<ChangeView>, x: ChangeView)
    ensures
        insert_by_path(s, x).to_multiset() == s.to_multiset().insert(x),
        sorted_by_path(s) ==> sorted_by_path(insert_by_path(s, x)),
    decreases s.len(),
{
    broadcast use vstd::seq_lib::to_multiset_build, vstd::seq_lib::to_multiset_contains;

    if s.len() == 0 {
        assert(seq![x] == Seq::<ChangeView>::empty().push(x));
        assert(s =~= Seq::<ChangeView>::empty());
    } else if lex_le(s.last().path, x.path) {
        assert(s.drop_last().push(s.last()) == s);
        if sorted_by_path(s) {
            let r = s.push(x);
            assert forall|i: int, j: int| 0 <= i < j < r.len() implies lex_le(
                #[trigger] r[i].path,
                #[trigger] r[j].path,
            ) by {
                if j == s.len() {
                    if i < s.len() - 1 {
                        lemma_lex_trans(s[i].path, s.last().path, x.path);
                    }
                }
            }
        }
    } else {
        let d = s.drop_last();
        let t = insert_by_path(d, x);
        lemma_insert_by_path(d, x);
        assert(d.push(s.last()) == s);
        assert(t.push(s.last()).to_multiset() == t.to_multiset().insert(s.last()));
        assert(s.to_multiset() == d.to_multiset().insert(s.last()));
        assert(t.push(s.last()).to_multiset() =~= s.to_multiset().insert(x));
        if sorted_by_path(s) {
            assert(sorted_by_path(d));
            let r = t.push(s.last());
            lemma_lex_total(s.last().path, x.path);
            assert forall|i: int, j: int| 0 <= i < j < r.len() implies lex_le(
                #[trigger] r[i].path,
                #[trigger] r[j].path,
            ) by {
                if j == t.len() {
                    let e = t[i];
                    assert(t.to_multiset().count(e) > 0);
                    if e != x {
                        assert(d.to_multiset().count(e) > 0);
                        assert(d.contains(e));
                        let k = choose|k: int| 0 <= k < d.len() && d[k] == e;
                        assert(s[k] == e);
                        assert(s[s.len() - 1] == s.last());
                    }
                }
            }
        }
    }
}

/// Sorting by path orders the changes by path and keeps each of them.
pub proof fn lemma_sort_by_path_sorts(s: Seq<ChangeView>)
    ensures
        sorted_by_path(sort_by_path(s)),
        sort_by_path(s).to_multiset() == s.to_multiset(),
    decreases s.len(),
{
    broadcast use vstd::seq_lib::to_multiset_build;

    if s.len() > 0 {
        lemma_sort_by_path_sorts(s.drop_last());
        lemma_insert_by_path(sort_by_path(s.drop_last()), s.last());
        assert(s.drop_last().push(s.last()) == s);
    } else {
        assert(s.to_multiset() =~= Multiset::<ChangeView>::empty()) by {
            vstd::seq_lib::to_multiset_len(s);
        }
        vstd::seq_lib::to_multiset_len(sort_by_path(s));
        assert(sort_by_path(s).to_multiset() =~= Multiset::<ChangeView>::empty());
    }
}

/// The staged and the unstaged lists read from `git status` are each
/// sorted by path and hold exactly the changes of the entries.
pub proof fn lemma_parsed_changes_sorted(output: Seq<char>)
    ensures
        ({
            let (staged, unstaged) = spec_parse_working_tree_changes(output);
            let (s, u) = parse_entries_from(split_on(output, '\0'), 0);
            &&& sorted_by_path(staged)
            &&& sorted_by_path(unstaged)
            &&& staged.to_multiset() == s.to_multiset()
            &&& unstaged.to_multiset() == u.to_multiset()
        }),
{
    let (s, u) = parse_entries_from(split_on(output, '\0'), 0);
    lemma_sort_by_path_sorts(s);
    lemma_sort_by_path_sorts(u);
}

/// A count of `git show --numstat`: `-` (a binary file) counts 0, else a
/// decimal number that fits in `usize` and fills the field.
pub open spec fn numstat_count(f: Seq<char>) -> Option<usize> {
    if f.len() == 1 && f[0] == '-' {
        Some(0)
    } else {
        match number_at(f, 0) {
            Some((v, e)) => if e == f.len() {
                Some(v)
            } else {
                None
            },
            None => None,
        }
    }
}

/// The file of one `--numstat` line, `added<TAB>deleted<TAB>path`; none
/// for a line of another shape (such as an empty one).
pub open spec fn numstat_entry(line: Seq<char>) -> Option<FileView> {
    let parts = split_on(line, '\t');
    if parts.len() != 3 {
        None
    } else {
        match (numstat_count(parts[0]), numstat_count(parts[1])) {
            (Some(a), Some(d)) => Some(FileView { path: parts[2], additions: a, deletions: d }),
            _ => None,
        }
    }
}

/// The files of the lines that have the shape of a numstat line, in order.
pub open spec fn numstat_entries(lines: Seq<Seq<char>>) -> Seq<FileView>
    decreases lines.len(),
{
    if lines.len() == 0 {
        Seq::empty()
    } else {
        let before = numstat_entries(lines.drop_last());
        match numstat_entry(lines.last()) {
            Some(f) => before.push(f),
            None => before,
        }
    }
}

/// The files of a commit as `git show --numstat --format=` lists them.
pub open spec fn spec_parse_commit_files(output: Seq<char>) -> Seq<FileView> {
    numstat_entries(split_on(output, '\n'))
}

fn numstat_count_exec(f: &Vec<char>) -> (r: Option<usize>)
    ensures
        r == numstat_count(f@),
{
    if f.len() == 1 && f[0] == '-' {
        return Some(0);
    }
    match number_at_exec(f, 0) {
        Some((v, e)) => if e == f.len() {
            Some(v)
        } else {
            None
        },
        None => None,
    }
}

fn numstat_entry_exec(line: &Vec<char>) -> (r: Option<FileChangeEntry>)
    ensures
        match r {
            Some(e) => numstat_entry(line@) == Some(e@),
            None => numstat_entry(line@) is None,
        },
{
    let parts = split_chars(line, '\t');
    if parts.len() != 3 {
        return None;
    }
    assert(char_views(parts@)[0] == parts@[0]@);
    assert(char_views(parts@)[1] == parts@[1]@);
    assert(char_views(parts@)[2] == parts@[2]@);
    let additions = match numstat_count_exec(&parts[0]) {
        Some(a) => a,
        None => return None,
    };
    let deletions = match numstat_count_exec(&parts[1]) {
        Some(d) => d,
        None => return None,
    };
    let path = string_of(&parts[2], 0, parts[2].len());
    assert(parts@[2]@.subrange(0, parts@[2]@.len() as int) =~= parts@[2]@);
    Some(FileChangeEntry { path, additions, deletions })
}

/// The files of a commit, from what `git show --numstat --format=` printed
/// (see `spec_parse_commit_files`).
pub fn parse_commit_files(output: &str) -> (files: Vec<FileChangeEntry>)
    ensures
        file_views(files@) == spec_parse_commit_files(output@),
{
    let chars = chars_of(output);
    let lines = split_chars(&chars, '\n');
    let ghost ls = char_views(lines@);
    let mut files: Vec<FileChangeEntry> = Vec::new();
    let mut i: usize = 0;
    assert(ls.take(0) =~= Seq::<Seq<char>>::empty());
    assert(file_views(files@) =~= Seq::<FileView>::empty());
    while i < lines.len()
        invariant
            ls == char_views(lines@),
            ls == split_on(output@, '\n'),
            i <= lines.len(),
            file_views(files@) == numstat_entries(ls.take(i as int)),
        decreases lines.len() - i,
    {
        assert(ls.take(i + 1).drop_last() =~= ls.take(i as int));
        assert(ls.take(i + 1).last() == lines@[i as int]@);
        let ghost before = files@;
        match numstat_entry_exec(&lines[i]) {
            Some(e) => {
                files.push(e);
                assert(file_views(files@) =~= file_views(before).push(e@));
            },
            None => {},
        }
        i = i + 1;
    }
    assert(ls.take(lines.len() as int) =~= ls);
    files
}

/// The views of a sequence of strings.
pub open spec fn string_views(s: Seq<String>) -> Seq<Seq<char>> {
    s.map_values(|x: String| x@)
}

/// The arguments of the `git` call that prints the diff of a working-tree
/// change on one side of the index: an untracked file against nothing;
/// otherwise the index against HEAD for the staged side (`--cached`) or
/// the working tree against the index, with the old path of a rename or
/// copy before the path.
pub open spec fn spec_working_tree_diff_args(area: GitWorkingTreeArea, change: ChangeView) -> Seq<Seq<char>> {
    match change.status {
        StatusView::Untracked => seq!["diff"@, "--no-index"@, "--"@, "/dev/null"@, change.path],
        _ => seq!["diff"@] + (if area == GitWorkingTreeArea::Staged {
            seq!["--cached"@]
        } else {
            Seq::empty()
        }) + seq!["--"@] + (match change.status {
            StatusView::Renamed(old) => seq![old],
            StatusView::Copied(old) => seq![old],
            _ => Seq::empty(),
        }) + seq![change.path],
    }
}

/// Whether the diff of a working-tree change comes from
/// `git diff --no-index`, whose exit status 1 means the inputs differ.
pub open spec fn spec_is_no_index_diff(change: ChangeView) -> bool {
    change.status is Untracked
}

/// The arguments of the `git` call for a working-tree change's diff (see
/// `spec_working_tree_diff_args`).
pub fn working_tree_diff_args(area: GitWorkingTreeArea, change: &GitWorkingTreeChange) -> (args: Vec<String>)
    ensures
        string_views(args@) == spec_working_tree_diff_args(area, change@),
{
    let mut args: Vec<String> = Vec::new();
    args.push(String::from_str("diff"));
    if let GitWorkingTreeChangeStatus::Untracked = change.status {
        args.push(String::from_str("--no-index"));
        args.push(String::from_str("--"));
        args.push(String::from_str("/dev/null"));
        args.push(change.path.clone());
        assert(string_views(args@) =~= spec_working_tree_diff_args(area, change@));
        return args;
    }
    let ghost a = string_views(args@);
    if area == GitWorkingTreeArea::Staged {
        args.push(String::from_str("--cached"));
    }
    let ghost b = string_views(args@);
    assert(b =~= a + (if area == GitWorkingTreeArea::Staged {
        seq!["--cached"@]
    } else {
        Seq::<Seq<char>>::empty()
    }));
    args.push(String::from_str("--"));
    let ghost c = string_views(args@);
    assert(c =~= b + seq!["--"@]);
    match &change.status {
        GitWorkingTreeChangeStatus::Renamed { old_path } => {
            args.push(old_path.clone());
        },
        GitWorkingTreeChangeStatus::Copied { old_path } => {
            args.push(old_path.clone());
        },
        _ => {},
    }
    let ghost d = string_views(args@);
    assert(d =~= c + (match change@.status {
        StatusView::Renamed(old) => seq![old],
        StatusView::Copied(old) => seq![old],
        _ => Seq::<Seq<char>>::empty(),
    }));
    args.push(change.path.clone());
    assert(string_views(args@) =~= d + seq![change@.path]);
    args
}

/// Whether a working-tree change's diff is read with `--no-index` (see
/// `spec_is_no_index_diff`).
pub fn is_no_index_diff(change: &GitWorkingTreeChange) -> (r: bool)
    ensures
        r == spec_is_no_index_diff(change@),
{
    if let GitWorkingTreeChangeStatus::Untracked = change.status {
        true
    } else {
        false
    }
}

/// The arguments of the `git` call that prints the diff of a file in a
/// commit against its first parent, for both paths of a rename (see
/// `spec_commit_file_diff_paths`).
pub open spec fn spec_commit_diff_args(commit_hash: Seq<char>, file_path: Seq<char>) -> Seq<Seq<char>> {
    seq!["show"@, "--format="@, "-m"@, "--first-parent"@, commit_hash, "--"@] + spec_commit_file_diff_paths(
        file_path,
    )
}

/// The arguments of the `git` call for a commit file's diff (see
/// `spec_commit_diff_args`).
pub fn commit_diff_args(commit_hash: &str, file_path: &str) -> (args: Vec<String>)
    ensures
        string_views(args@) == spec_commit_diff_args(commit_hash@, file_path@),
{
    let mut args: Vec<String> = Vec::new();
    args.push(String::from_str("show"));
    args.push(String::from_str("--format="));
    args.push(String::from_str("-m"));
    args.push(String::from_str("--first-parent"));
    args.push(commit_hash.to_string());
    args.push(String::from_str("--"));
    let ghost head = string_views(args@);
    let mut paths = commit_file_diff_paths(file_path);
    let ghost tail = string_views(paths@);
    args.append(&mut paths);
    assert(string_views(args@) =~= head + tail);
    args
}

/// An ordinary (`1`) entry of `git status --porcelain=v2` with the letters
/// `x` (staged side) and `y` (unstaged side), followed by `rest`: the
/// other fields and the path.
pub open spec fn ordinary_entry(x: char, y: char, rest: Seq<char>) -> Seq<char> {
    seq!['1', ' ', x, y] + rest
}

/// The conditions under which `ordinary_entry(x, y, rest)` is one whole
/// entry with a path: letters that are no field or entry separators, no
/// entry separator in `rest`, and seven more fields before the path.
pub open spec fn ordinary_entry_ok(x: char, y: char, rest: Seq<char>) -> bool {
    &&& x != ' ' && x != '\0' && y != ' ' && y != '\0'
    &&& forall|i: int| 0 <= i < rest.len() ==> rest[i] != '\0'
    &&& after_fields(rest, 7) is Some
}

proof fn lemma_ordinary_entry_parse(x: char, y: char, rest: Seq<char>)
    requires
        ordinary_entry_ok(x, y, rest),
    ensures
        ({
            let p = after_fields(rest, 7)->Some_0;
            spec_parse_working_tree_changes(ordinary_entry(x, y, rest).push('\0')) == (
                letter_change(x, p, Seq::empty()),
                letter_change(y, p, Seq::empty()),
            )
        }),
{
    let e = ordinary_entry(x, y, rest);
    let p = after_fields(rest, 7)->Some_0;
    assert forall|i: int| 0 <= i < e.len() implies e[i] != '\0' by {
        if i >= 4 {
            assert(e[i] == rest[i - 4]);
        }
    }
    lemma_split_on_no_sep(e, '\0');
    assert(e.push('\0').drop_last() =~= e);
    let es = split_on(e.push('\0'), '\0');
    assert(es =~= seq![e, Seq::<char>::empty()]);
    let d1 = e.drop_first();
    let d2 = d1.drop_first();
    let d3 = d2.drop_first();
    assert(d1 =~= seq![' ', x, y] + rest);
    assert(d2 =~= seq![x, y] + rest);
    assert(d3 =~= seq![y] + rest);
    assert(d3.drop_first() =~= rest);
    assert(e[0] == '1' && d1[0] == ' ' && d2[0] == x && d3[0] == y);
    assert(after_fields(d3, 7) == after_fields(rest, 7));
    assert(after_fields(d2, 7) == after_fields(d3, 7));
    assert(after_fields(d1, 8) == after_fields(d2, 7));
    assert(after_fields(e, 8) == after_fields(d1, 8));
    assert(after_fields(e, 8) == Some(p));
    assert(parse_entry(es, 1) == (Seq::<ChangeView>::empty(), Seq::<ChangeView>::empty(), 1int));
    assert(parse_entries_from(es, 2) == (Seq::<ChangeView>::empty(), Seq::<ChangeView>::empty()));
    assert(parse_entries_from(es, 1) == (Seq::<ChangeView>::empty(), Seq::<ChangeView>::empty()));
    let sx = letter_change(x, p, Seq::empty());
    let sy = letter_change(y, p, Seq::empty());
    assert(parse_entry(es, 0) == (sx, sy, 1int));
    assert(parse_entries_from(es, 0) == (sx + Seq::<ChangeView>::empty(), sy + Seq::<ChangeView>::empty()));
    assert(sx + Seq::<ChangeView>::empty() =~= sx);
    assert(sy + Seq::<ChangeView>::empty() =~= sy);
    lemma_sort_one(sx);
    lemma_sort_one(sy);
}

proof fn lemma_sort_one(s: Seq<ChangeView>)
    requires
        s.len() <= 1,
    ensures
        sort_by_path(s) == s,
{
    if s.len() == 1 {
        assert(s.drop_last() =~= Seq::<ChangeView>::empty());
        assert(sort_by_path(s.drop_last()) == Seq::<ChangeView>::empty());
        assert(seq![s.last()] =~= s);
    }
}

/// An untracked entry `? path` is an unstaged, untracked change of that
/// path, and nothing staged.
pub proof fn lemma_untracked_entry(path: Seq<char>)
    requires
        forall|i: int| 0 <= i < path.len() ==> path[i] != '\0',
    ensures
        spec_parse_working_tree_changes((seq!['?', ' '] + path).push('\0')) == (
            Seq::<ChangeView>::empty(),
            seq![ChangeView { path, status: StatusView::Untracked }],
        ),
{
    let e = seq!['?', ' '] + path;
    assert forall|i: int| 0 <= i < e.len() implies e[i] != '\0' by {
        if i >= 2 {
            assert(e[i] == path[i - 2]);
        }
    }
    lemma_split_on_no_sep(e, '\0');
    assert(e.push('\0').drop_last() =~= e);
    let es = split_on(e.push('\0'), '\0');
    assert(es =~= seq![e, Seq::<char>::empty()]);
    assert(e.skip(2) =~= path);
    let u = seq![ChangeView { path, status: StatusView::Untracked }];
    assert(parse_entry(es, 0) == (Seq::<ChangeView>::empty(), u, 1int));
    assert(parse_entry(es, 1) == (Seq::<ChangeView>::empty(), Seq::<ChangeView>::empty(), 1int));
    assert(parse_entries_from(es, 2) == (Seq::<ChangeView>::empty(), Seq::<ChangeView>::empty()));
    assert(parse_entries_from(es, 1) == (Seq::<ChangeView>::empty(), Seq::<ChangeView>::empty()));
    assert(Seq::<ChangeView>::empty() + Seq::<ChangeView>::empty() =~= Seq::<ChangeView>::empty());
    assert(u + Seq::<ChangeView>::empty() =~= u);
    lemma_sort_one(Seq::<ChangeView>::empty());
    lemma_sort_one(u);
}

/// The two letters of an ordinary entry mean the same on either side of
/// the index: swapping them swaps the staged and the unstaged changes.
pub proof fn lemma_xy_letters_same_on_both_sides(x: char, y: char, rest: Seq<char>)
    requires
        ordinary_entry_ok(x, y, rest),
    ensures
        spec_parse_working_tree_changes(ordinary_entry(x, y, rest).push('\0')).0
            == spec_parse_working_tree_changes(ordinary_entry(y, x, rest).push('\0')).1,
        spec_parse_working_tree_changes(ordinary_entry(x, y, rest).push('\0')).1
            == spec_parse_working_tree_changes(ordinary_entry(y, x, rest).push('\0')).0,
{
    lemma_ordinary_entry_parse(x, y, rest);
    lemma_ordinary_entry_parse(y, x, rest);
}

/// What the letters of an ordinary entry mean: on each side, `D` is a
/// deletion, `M` and `T` a modification, `A` an addition, `U` a conflict,
/// and `.` no change, all of the entry's path.
pub proof fn lemma_xy_letter_meaning(x: char, y: char, rest: Seq<char>)
    requires
        ordinary_entry_ok(x, y, rest),
    ensures
        ({
            let p = after_fields(rest, 7)->Some_0;
            let (staged, unstaged) = spec_parse_working_tree_changes(ordinary_entry(x, y, rest).push('\0'));
            &&& y == 'D' ==> unstaged == seq![ChangeView { path: p, status: StatusView::Deleted }]
            &&& (y == 'M' || y == 'T') ==> unstaged == seq![ChangeView { path: p, status: StatusView::Modified }]
            &&& y == 'A' ==> unstaged == seq![ChangeView { path: p, status: StatusView::Added }]
            &&& y == 'U' ==> unstaged == seq![ChangeView { path: p, status: StatusView::Conflicted }]
            &&& y == '.' ==> unstaged.len() == 0
            &&& x == 'D' ==> staged == seq![ChangeView { path: p, status: StatusView::Deleted }]
            &&& (x == 'M' || x == 'T') ==> staged == seq![ChangeView { path: p, status: StatusView::Modified }]
            &&& x == 'A' ==> staged == seq![ChangeView { path: p, status: StatusView::Added }]
            &&& x == 'U' ==> staged == seq![ChangeView { path: p, status: StatusView::Conflicted }]
            &&& x == '.' ==> staged.len() == 0
        }),
{
    lemma_ordinary_entry_parse(x, y, rest);
}

/// Whether a field of a commit can be written into a `git log` record as
/// it is: it holds no field or record separator and no line break.
pub open spec fn log_field_ok(f: Seq<char>) -> bool {
    forall|i: int|
        0 <= i < f.len() ==> f[i] != FIELD_SEPARATOR && f[i] != RECORD_SEPARATOR && !is_newline(
            #[trigger] f[i],
        )
}

pub open spec fn log_commit_ok(c: CommitView) -> bool {
    &&& log_field_ok(c.hash)
    &&& log_field_ok(c.short_hash)
    &&& log_field_ok(c.author)
    &&& log_field_ok(c.committed_at)
    &&& log_field_ok(c.subject)
}

/// The fields of a commit joined by `FIELD_SEPARATOR`.
pub open spec fn log_record_fields(c: CommitView) -> Seq<char> {
    c.hash + seq![FIELD_SEPARATOR] + c.short_hash + seq![FIELD_SEPARATOR] + c.author + seq![FIELD_SEPARATOR]
        + c.committed_at + seq![FIELD_SEPARATOR] + c.subject
}

/// What `git log` prints for `cs` in the format that
/// `parse_commit_history` reads: each record's fields, then
/// `RECORD_SEPARATOR` and a line break.
pub open spec fn log_text(cs: Seq<CommitView>) -> Seq<char>
    decreases cs.len(),
{
    if cs.len() == 0 {
        Seq::empty()
    } else {
        log_text(cs.drop_last()) + log_record_fields(cs.last()) + seq![RECORD_SEPARATOR, '\n']
    }
}

proof fn lemma_no_sep_in_field(f: Seq<char>, sep: char)
    requires
        log_field_ok(f),
        sep == FIELD_SEPARATOR || sep == RECORD_SEPARATOR,
    ensures
        split_on(f, sep) == seq![f],
{
    assert forall|i: int| 0 <= i < f.len() implies f[i] != sep by {
        assert(!is_newline(f[i]));
    }
    lemma_split_on_no_sep(f, sep);
}

proof fn lemma_record_fields_split(c: CommitView)
    requires
        log_commit_ok(c),
    ensures
        split_on(log_record_fields(c), FIELD_SEPARATOR) == seq![
            c.hash,
            c.short_hash,
            c.author,
            c.committed_at,
            c.subject,
        ],
{
    let fs = FIELD_SEPARATOR;
    lemma_no_sep_in_field(c.hash, fs);
    lemma_no_sep_in_field(c.short_hash, fs);
    lemma_no_sep_in_field(c.author, fs);
    lemma_no_sep_in_field(c.committed_at, fs);
    lemma_no_sep_in_field(c.subject, fs);
    let a1 = c.hash;
    let a2 = a1 + seq![fs] + c.short_hash;
    let a3 = a2 + seq![fs] + c.author;
    let a4 = a3 + seq![fs] + c.committed_at;
    lemma_split_on_concat(a1, c.short_hash, fs);
    lemma_split_on_concat(a2, c.author, fs);
    lemma_split_on_concat(a3, c.committed_at, fs);
    lemma_split_on_concat(a4, c.subject, fs);
    assert(log_record_fields(c) =~= a4 + seq![fs] + c.subject);
    assert(split_on(log_record_fields(c), fs) =~= seq![c.hash, c.short_hash, c.author, c.committed_at, c.subject]);
}

/// The record of a commit, after the line break that ended the record
/// before it or after nothing, holds that commit.
proof fn lemma_record_reads_back(pre: Seq<char>, c: CommitView)
    requires
        log_commit_ok(c),
        pre == Seq::<char>::empty() || pre == seq!['\n'],
    ensures
        commit_of_record(pre + log_record_fields(c)) == Some(c),
{
    let f = log_record_fields(c);
    let fs = FIELD_SEPARATOR;
    assert(f.len() > 0);
    assert(!is_newline(f[0])) by {
        if c.hash.len() > 0 {
            assert(f[0] == c.hash[0]);
        } else {
            assert(f[0] == fs);
        }
    }
    assert(!is_newline(f.last())) by {
        if c.subject.len() > 0 {
            assert(f.last() == c.subject[c.subject.len() - 1]);
        } else {
            assert(f.last() == fs);
        }
    }
    assert(trim_start_newlines(f) == f);
    if pre.len() > 0 {
        assert((pre + f)[0] == '\n');
        assert((pre + f).drop_first() =~= f);
    } else {
        assert(pre + f =~= f);
    }
    assert(trim_start_newlines(pre + f) == f);
    assert(trim_end_newlines(f) == f);
    lemma_record_fields_split(c);
}

proof fn lemma_log_text_pieces(cs: Seq<CommitView>)
    requires
        forall|i: int| 0 <= i < cs.len() ==> log_commit_ok(#[trigger] cs[i]),
    ensures
        split_on(log_text(cs), RECORD_SEPARATOR).last() == (if cs.len() == 0 {
            Seq::<char>::empty()
        } else {
            seq!['\n']
        }),
        commits_of_records(split_on(log_text(cs), RECORD_SEPARATOR)) == cs,
    decreases cs.len(),
{
    let rs = RECORD_SEPARATOR;
    if cs.len() == 0 {
        assert(split_on(log_text(cs), rs) == seq![Seq::<char>::empty()]);
        assert(seq![Seq::<char>::empty()].drop_last() =~= Seq::<Seq<char>>::empty());
        assert(commit_of_record(Seq::<char>::empty()) is None);
        assert(commits_of_records(seq![Seq::<char>::empty()]) == commits_of_records(Seq::<Seq<char>>::empty()));
        assert(cs =~= Seq::<CommitView>::empty());
    } else {
        let prev = cs.drop_last();
        let c = cs.last();
        assert(log_commit_ok(c)) by {
            assert(c == cs[cs.len() - 1]);
        }
        assert forall|i: int| 0 <= i < prev.len() implies log_commit_ok(#[trigger] prev[i]) by {
            assert(prev[i] == cs[i]);
        }
        lemma_log_text_pieces(prev);
        let l = log_text(prev);
        let f = log_record_fields(c);
        let pd = split_on(l, rs);
        crate::text::lemma_split_on_nonempty(l, rs);
        assert forall|i: int| 0 <= i < f.len() implies f[i] != rs by {
            assert(f[i] != rs) by {
                lemma_record_fields_split(c);
                if f[i] == rs {
                    let fields = seq![c.hash, c.short_hash, c.author, c.committed_at, c.subject];
                    assert(f =~= c.hash + seq![FIELD_SEPARATOR] + c.short_hash + seq![FIELD_SEPARATOR] + c.author
                        + seq![FIELD_SEPARATOR] + c.committed_at + seq![FIELD_SEPARATOR] + c.subject);
                    let h = c.hash.len();
                    let s1 = h + 1 + c.short_hash.len();
                    let s2 = s1 + 1 + c.author.len();
                    let s3 = s2 + 1 + c.committed_at.len();
                    if i < h {
                        assert(f[i] == c.hash[i]);
                    } else if i == h {
                    } else if i < s1 {
                        assert(f[i] == c.short_hash[i - h - 1]);
                    } else if i == s1 {
                    } else if i < s2 {
                        assert(f[i] == c.author[i - s1 - 1]);
                    } else if i == s2 {
                    } else if i < s3 {
                        assert(f[i] == c.committed_at[i - s2 - 1]);
                    } else if i == s3 {
                    } else {
                        assert(f[i] == c.subject[i - s3 - 1]);
                    }
                }
            }
        }
        lemma_split_on_extend(l, f, rs);
        let q = pd.update(pd.len() - 1, pd.last() + f);
        assert(split_on(l + f, rs) == q);
        assert(log_text(cs) =~= (l + f) + seq![rs] + seq!['\n']);
        lemma_split_on_concat(l + f, seq!['\n'], rs);
        lemma_split_on_no_sep(seq!['\n'], rs);
        let pieces = split_on(log_text(cs), rs);
        assert(pieces == q + seq![seq!['\n']]);
        assert(pieces.last() == seq!['\n']);
        // the trailing line break holds no commit
        assert(trim_start_newlines(seq!['\n']) == trim_start_newlines(seq!['\n'].drop_first()));
        assert(seq!['\n'].drop_first() =~= Seq::<char>::empty());
        assert(commit_of_record(seq!['\n']) is None);
        assert(pieces.drop_last() =~= q);
        assert(commits_of_records(pieces) == commits_of_records(q));
        // the last record holds `c`
        lemma_record_reads_back(pd.last(), c);
        assert(q.last() == pd.last() + f);
        assert(q.drop_last() =~= pd.drop_last());
        assert(commits_of_records(q) == commits_of_records(pd.drop_last()).push(c));
        // the piece that ended the earlier records holds none
        if prev.len() == 0 {
            assert(commit_of_record(pd.last()) is None);
        } else {
            assert(commit_of_record(seq!['\n']) is None);
        }
        assert(commits_of_records(pd) == commits_of_records(pd.drop_last()));
        assert(prev.push(c) =~= cs);
    }
}

/// Parsing what `git log` prints for a list of commits gives back exactly
/// those commits, in order, when no field holds a separator or a line
/// break.
pub proof fn lemma_commit_history_round_trip(cs: Seq<CommitView>)
    requires
        forall|i: int| 0 <= i < cs.len() ==> log_commit_ok(#[trigger] cs[i]),
    ensures
        spec_parse_commit_history(log_text(cs)) == cs,
{
    lemma_log_text_pieces(cs);
}

proof fn lemma_decimal_count(n: usize)
    ensures
        numstat_count(decimal(n as nat)) == Some(n),
        forall|i: int| 0 <= i < decimal(n as nat).len() ==> decimal(n as nat)[i] != '\t' && decimal(n as nat)[i]
            != '\n',
{
    let f = decimal(n as nat);
    lemma_decimal_reads_back(n as nat);
    assert(f.subrange(0, f.len() as int) =~= f);
    lemma_number_at_decimal(f, 0, n as nat);
    assert(f.len() == 1 ==> f[0] != '-') by {
        if f.len() == 1 {
            assert(is_digit(f[0]));
        }
    }
    assert forall|i: int| 0 <= i < f.len() implies f[i] != '\t' && f[i] != '\n' by {
        assert(is_digit(f[i]));
    }
}

/// A `--numstat` line with added and deleted counts written in decimal
/// and a path reads back as that file with those counts; a binary file's
/// `-` counts read as 0.
pub proof fn lemma_numstat_round_trip(additions: usize, deletions: usize, path: Seq<char>)
    requires
        forall|i: int| 0 <= i < path.len() ==> path[i] != '\t' && path[i] != '\n',
    ensures
        spec_parse_commit_files(
            (decimal(additions as nat) + seq!['\t'] + decimal(deletions as nat) + seq!['\t'] + path).push('\n'),
        ) == seq![FileView { path, additions, deletions }],
        spec_parse_commit_files((seq!['-', '\t', '-', '\t'] + path).push('\n')) == seq![
            FileView { path, additions: 0, deletions: 0 },
        ],
{
    lemma_decimal_count(additions);
    lemma_decimal_count(deletions);
    let a = decimal(additions as nat);
    let d = decimal(deletions as nat);
    lemma_numstat_line(a, d, path);
    lemma_numstat_line(seq!['-'], seq!['-'], path);
    assert(seq!['-'] + seq!['\t'] + seq!['-'] + seq!['\t'] + path =~= seq!['-', '\t', '-', '\t'] + path);
}

proof fn lemma_numstat_line(a: Seq<char>, d: Seq<char>, path: Seq<char>)
    requires
        forall|i: int| 0 <= i < a.len() ==> a[i] != '\t' && a[i] != '\n',
        forall|i: int| 0 <= i < d.len() ==> d[i] != '\t' && d[i] != '\n',
        forall|i: int| 0 <= i < path.len() ==> path[i] != '\t' && path[i] != '\n',
    ensures
        ({
            let line = a + seq!['\t'] + d + seq!['\t'] + path;
            spec_parse_commit_files(line.push('\n')) == match (numstat_count(a), numstat_count(d)) {
                (Some(x), Some(y)) => seq![FileView { path, additions: x, deletions: y }],
                _ => Seq::<FileView>::empty(),
            }
        }),
{
    let line = a + seq!['\t'] + d + seq!['\t'] + path;
    assert forall|i: int| 0 <= i < a.len() implies a[i] != '\t' by {}
    assert forall|i: int| 0 <= i < d.len() implies d[i] != '\t' by {}
    assert forall|i: int| 0 <= i < path.len() implies path[i] != '\t' by {}
    lemma_split_on_no_sep(a, '\t');
    lemma_split_on_no_sep(d, '\t');
    lemma_split_on_no_sep(path, '\t');
    lemma_split_on_concat(a, d, '\t');
    lemma_split_on_concat(a + seq!['\t'] + d, path, '\t');
    assert(split_on(line, '\t') =~= seq![a, d, path]);
    assert forall|i: int| 0 <= i < line.len() implies line[i] != '\n' by {
        let k1 = a.len() as int;
        let k2 = k1 + 1 + d.len();
        if i < k1 {
            assert(line[i] == a[i]);
        } else if i == k1 {
        } else if i < k2 {
            assert(line[i] == d[i - k1 - 1]);
        } else if i == k2 {
        } else {
            assert(line[i] == path[i - k2 - 1]);
        }
    }
    lemma_split_on_no_sep(line, '\n');
    assert(line.push('\n').drop_last() =~= line);
    let ls = split_on(line.push('\n'), '\n');
    assert(ls =~= seq![line, Seq::<char>::empty()]);
    assert(split_on(Seq::<char>::empty(), '\t').len() == 1);
    assert(numstat_entry(Seq::<char>::empty()) is None);
    assert(ls.drop_last() =~= seq![line]);
    assert(seq![line].drop_last() =~= Seq::<Seq<char>>::empty());
    assert(numstat_entries(ls) == numstat_entries(seq![line]));
    let parts = split_on(line, '\t');
    assert(parts[0] == a && parts[1] == d && parts[2] == path);
    assert(numstat_entries(Seq::<Seq<char>>::empty()) == Seq::<FileView>::empty());
    match (numstat_count(a), numstat_count(d)) {
        (Some(x), Some(y)) => {
            assert(numstat_entry(line) == Some(FileView { path, additions: x, deletions: y }));
            assert(Seq::<FileView>::empty().push(FileView { path, additions: x, deletions: y }) =~= seq![
                FileView { path, additions: x, deletions: y },
            ]);
        },
        _ => {
            assert(numstat_entry(line) is None);
        },
    }
}

} // verus!
