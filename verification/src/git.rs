//! What the tool decides from git's answers.
//!
//! All git interaction is done by running the git CLI with argument arrays
//! (never through a shell), so everything the user configured is inherited.
//! The processes are started by the application; this module builds their
//! command lines and turns their captured output into repository state,
//! conflicted files and branch lists.

use vstd::prelude::*;

use crate::text::{
    chars_of, chars_view, decimal, lemma_chars_view_take, lemma_strings_push, decimal_string, find_char, first_index, join, split_chars,
    split_on, split_once, str_lines, str_lines_of, string_of, strings_view, sub_chars, trim_bounds,
    trim_ws, words, words_of, lemma_strings_view,
};

verus! {

/// Why a git command could not be run or failed.
#[derive(Debug, Clone, PartialEq, Eq)]
pub enum GitError {
    /// The git executable was not found
    NotFound,
    /// The directory is not inside a git repository
    NotARepo,
    /// A git command exited with an error
    Failed {
        /// The subcommand, without the leading `git`
        cmd: String,
        /// What the command wrote to stderr, trimmed
        stderr: String,
    },
    /// Any other I/O error, by its message
    Io(String),
}

/// The operation a repository is in the middle of.
#[derive(Debug, Clone, Copy, PartialEq, Eq, Structural)]
pub enum RepoState {
    /// No operation in progress
    Clean,
    /// A merge (`MERGE_HEAD` exists)
    Merging,
    /// A rebase (`rebase-merge`, or `rebase-apply` without the `applying` mark)
    Rebasing,
    /// A cherry-pick (`CHERRY_PICK_HEAD` exists)
    CherryPicking,
    /// A revert (`REVERT_HEAD` exists)
    Reverting,
    /// `git am` applying patches (`rebase-apply/applying` exists)
    Am,
}

/// The git subcommand of each state.
pub open spec fn op_name_spec(s: RepoState) -> Seq<char> {
    match s {
        RepoState::Clean => "clean"@,
        RepoState::Merging => "merge"@,
        RepoState::Rebasing => "rebase"@,
        RepoState::CherryPicking => "cherry-pick"@,
        RepoState::Reverting => "revert"@,
        RepoState::Am => "am"@,
    }
}

impl RepoState {
    /// The git subcommand of the operation (for `--continue`, `--abort` and messages).
    pub fn op_name(self) -> (r: &'static str)
        ensures
            r@ == op_name_spec(self),
    {
        match self {
            RepoState::Clean => "clean",
            RepoState::Merging => "merge",
            RepoState::Rebasing => "rebase",
            RepoState::CherryPicking => "cherry-pick",
            RepoState::Reverting => "revert",
            RepoState::Am => "am",
        }
    }
}

/// Which operation markers exist in the git directory.
#[derive(Debug, Clone, Copy)]
pub struct GitDirMarks {
    /// `rebase-apply` exists
    pub rebase_apply: bool,
    /// `rebase-apply/applying` exists
    pub applying: bool,
    /// `rebase-merge` exists
    pub rebase_merge: bool,
    /// `CHERRY_PICK_HEAD` exists
    pub cherry_pick_head: bool,
    /// `REVERT_HEAD` exists
    pub revert_head: bool,
    /// `MERGE_HEAD` exists
    pub merge_head: bool,
}

/// The state the markers show. A rebase is checked before a cherry-pick: an
/// interactive rebase replays commits one by one and leaves
/// `CHERRY_PICK_HEAD` on a conflict, yet it is finished with `rebase --continue`.
pub open spec fn state_spec(m: GitDirMarks) -> RepoState {
    if m.rebase_apply {
        if m.applying {
            RepoState::Am
        } else {
            RepoState::Rebasing
        }
    } else if m.rebase_merge {
        RepoState::Rebasing
    } else if m.cherry_pick_head {
        RepoState::CherryPicking
    } else if m.revert_head {
        RepoState::Reverting
    } else if m.merge_head {
        RepoState::Merging
    } else {
        RepoState::Clean
    }
}

/// Which operation the markers show. The state names an operation whose own
/// marker is present (a rebase by either of its directories, `git am` by the
/// `applying` mark inside `rebase-apply`); a rebase wins over the markers it
/// leaves behind; without a rebase, a cherry-pick marker names a
/// cherry-pick, then a revert marker a revert, then a merge marker a merge;
/// and the repository is clean exactly when no marker is present.
pub proof fn law_state_follows_markers(m: GitDirMarks)
    ensures
        state_spec(m) == RepoState::Am ==> m.rebase_apply && m.applying,
        state_spec(m) == RepoState::Rebasing ==> m.rebase_apply || m.rebase_merge,
        state_spec(m) == RepoState::CherryPicking ==> m.cherry_pick_head,
        state_spec(m) == RepoState::Reverting ==> m.revert_head,
        state_spec(m) == RepoState::Merging ==> m.merge_head,
        (state_spec(m) == RepoState::Clean) <==> !(m.rebase_apply || m.rebase_merge || m.cherry_pick_head
            || m.revert_head || m.merge_head),
        m.rebase_apply || m.rebase_merge ==> (state_spec(m) == RepoState::Rebasing || state_spec(m)
            == RepoState::Am),
        m.rebase_apply ==> (state_spec(m) == RepoState::Am <==> m.applying),
        !m.rebase_apply && !m.rebase_merge && m.cherry_pick_head ==> state_spec(m)
            == RepoState::CherryPicking,
        !m.rebase_apply && !m.rebase_merge && !m.cherry_pick_head && m.revert_head ==> state_spec(m)
            == RepoState::Reverting,
        !m.rebase_apply && !m.rebase_merge && !m.cherry_pick_head && !m.revert_head && m.merge_head
            ==> state_spec(m) == RepoState::Merging,
{
}

/// A conflicted file and which index stages it has.
#[derive(Debug, Clone, PartialEq, Eq)]
pub struct ConflictedFile {
    /// Path relative to the repository root
    pub path: String,
    /// Stage 1 (base) exists; missing in an add/add conflict
    pub has_base: bool,
    /// Stage 2 (ours) exists
    pub has_ours: bool,
    /// Stage 3 (theirs) exists
    pub has_theirs: bool,
}

/// Mathematical view of a conflicted file.
pub struct FileView {
    pub path: Seq<char>,
    pub has_base: bool,
    pub has_ours: bool,
    pub has_theirs: bool,
}

impl View for ConflictedFile {
    type V = FileView;

    open spec fn view(&self) -> FileView {
        FileView { path: self.path@, has_base: self.has_base, has_ours: self.has_ours, has_theirs: self.has_theirs }
    }
}

/// Views of a sequence of conflicted files.
pub open spec fn files_view(v: Seq<ConflictedFile>) -> Seq<FileView> {
    v.map_values(|f: ConflictedFile| f@)
}

/// The stage field of an entry's metadata (`<mode> <oid> <stage>`), or "0".
pub open spec fn stage_of(meta: Seq<char>) -> Seq<char> {
    if words(meta).len() > 2 {
        words(meta)[2]
    } else {
        seq!['0']
    }
}

/// `f` with the flag of `stage` set ("1" base, "2" ours, "3" theirs).
pub open spec fn mark_stage(f: FileView, stage: Seq<char>) -> FileView {
    if stage == seq!['1'] {
        FileView { path: f.path, has_base: true, has_ours: f.has_ours, has_theirs: f.has_theirs }
    } else if stage == seq!['2'] {
        FileView { path: f.path, has_base: f.has_base, has_ours: true, has_theirs: f.has_theirs }
    } else if stage == seq!['3'] {
        FileView { path: f.path, has_base: f.has_base, has_ours: f.has_ours, has_theirs: true }
    } else {
        f
    }
}

/// Index of the first file with this path, or -1.
pub open spec fn path_index(files: Seq<FileView>, path: Seq<char>) -> int
    decreases files.len(),
{
    if files.len() == 0 {
        -1
    } else if files[0].path == path {
        0
    } else {
        let k = path_index(files.drop_first(), path);
        if k < 0 {
            -1
        } else {
            k + 1
        }
    }
}

/// One entry `<mode> <oid> <stage>\t<path>` read into the files so far: the
/// path's file gets the stage's flag, and a path seen first is appended.
/// Empty entries and entries without a tab are skipped.
pub open spec fn ls_step(files: Seq<FileView>, entry: Seq<char>) -> Seq<FileView> {
    if entry.len() == 0 {
        files
    } else {
        match split_once(entry, '\t') {
            None => files,
            Some((meta, path)) => {
                let k = path_index(files, path);
                if k >= 0 {
                    files.update(k, mark_stage(files[k], stage_of(meta)))
                } else {
                    files.push(
                        mark_stage(
                            FileView { path, has_base: false, has_ours: false, has_theirs: false },
                            stage_of(meta),
                        ),
                    )
                }
            },
        }
    }
}

/// All entries read in order.
pub open spec fn ls_fold(entries: Seq<Seq<char>>) -> Seq<FileView>
    decreases entries.len(),
{
    if entries.len() == 0 {
        Seq::empty()
    } else {
        ls_step(ls_fold(entries.drop_last()), entries.last())
    }
}

/// The conflicted files listed by `git ls-files -u -z`: NUL-separated
/// entries, grouped by path in order of first appearance.
pub open spec fn parse_ls_spec(text: Seq<char>) -> Seq<FileView> {
    ls_fold(split_on(text, '\0'))
}

/// Bounds and meaning of `path_index`.
proof fn lemma_path_index(files: Seq<FileView>, path: Seq<char>)
    ensures
        -1 <= path_index(files, path) < files.len(),
        path_index(files, path) >= 0 ==> files[path_index(files, path)].path == path,
        forall|j: int|
            0 <= j < files.len() && (path_index(files, path) < 0 || j < path_index(files, path))
                ==> files[j].path != path,
    decreases files.len(),
{
    if files.len() > 0 && files[0].path != path {
        lemma_path_index(files.drop_first(), path);
        assert forall|j: int|
            0 <= j < files.len() && (path_index(files, path) < 0 || j < path_index(files, path))
                implies files[j].path != path by {
            if j > 0 {
                assert(files[j] == files.drop_first()[j - 1]);
            }
        }
    }
}

/// Entry `e` of `git ls-files -u -z` lists `path` at stage `stage`: its
/// metadata before the first tab has `stage` as its third field, and `path`
/// follows the tab.
pub open spec fn entry_lists(e: Seq<char>, path: Seq<char>, stage: char) -> bool {
    match split_once(e, '\t') {
        Some((meta, p)) => p == path && words(meta).len() > 2 && words(meta)[2] == seq![stage],
        None => false,
    }
}

/// Some entry lists `path` at `stage`.
pub open spec fn listed_at(entries: Seq<Seq<char>>, path: Seq<char>, stage: char) -> bool {
    exists|k: int| 0 <= k < entries.len() && entry_lists(#[trigger] entries[k], path, stage)
}

/// The path an entry names after its first tab, if it has one.
pub open spec fn entry_path(e: Seq<char>) -> Option<Seq<char>> {
    match split_once(e, '\t') {
        Some((meta, p)) => Some(p),
        None => None,
    }
}

/// Some entry lists `path` at all.
pub open spec fn listed(entries: Seq<Seq<char>>, path: Seq<char>) -> bool {
    exists|k: int| 0 <= k < entries.len() && #[trigger] entry_path(entries[k]) == Some(path)
}

/// What the files read from some entries say: one file per listed path, and
/// each file's stage flags set exactly by the entries that list its path at
/// that stage.
pub open spec fn ls_inv(entries: Seq<Seq<char>>, files: Seq<FileView>) -> bool {
    &&& forall|i: int, j: int| 0 <= i < j < files.len() ==> #[trigger] files[i].path != #[trigger] files[j].path
    &&& forall|i: int|
        0 <= i < files.len() ==> {
            &&& listed(entries, (#[trigger] files[i]).path)
            &&& files[i].has_base == listed_at(entries, files[i].path, '1')
            &&& files[i].has_ours == listed_at(entries, files[i].path, '2')
            &&& files[i].has_theirs == listed_at(entries, files[i].path, '3')
        }
    &&& forall|p: Seq<char>| listed(entries, p) ==> path_index(files, p) >= 0
}

/// Reading entries keeps what the files say in step with them.
proof fn lemma_ls_fold(entries: Seq<Seq<char>>)
    ensures
        ls_inv(entries, ls_fold(entries)),
    decreases entries.len(),
{
    if entries.len() > 0 {
        let prev = entries.drop_last();
        let e = entries.last();
        lemma_ls_fold(prev);
        let fs = ls_fold(prev);
        let n = ls_fold(entries);
        assert(n == ls_step(fs, e));
        assert forall|k: int| 0 <= k < prev.len() implies #[trigger] entries[k] == prev[k] by {}
        assert(entries[entries.len() - 1] == e);
        // What the entries say, split into the earlier ones and the last.
        assert forall|p: Seq<char>, st: char|
            listed_at(entries, p, st) == (listed_at(prev, p, st) || entry_lists(e, p, st)) by {
            if listed_at(entries, p, st) {
                let k = choose|k: int| 0 <= k < entries.len() && entry_lists(#[trigger] entries[k], p, st);
                if k < prev.len() {
                    assert(entries[k] == prev[k]);
                }
            }
            if listed_at(prev, p, st) {
                let k = choose|k: int| 0 <= k < prev.len() && entry_lists(#[trigger] prev[k], p, st);
                assert(entries[k] == prev[k]);
            }
            if entry_lists(e, p, st) {
                assert(entry_lists(entries[entries.len() - 1], p, st));
            }
        }
        assert forall|p: Seq<char>| listed(entries, p) == (listed(prev, p) || entry_path(e) == Some(p)) by {
            if listed(entries, p) {
                let k = choose|k: int| 0 <= k < entries.len() && #[trigger] entry_path(entries[k]) == Some(p);
                if k < prev.len() {
                    assert(entries[k] == prev[k]);
                }
            }
            if listed(prev, p) {
                let k = choose|k: int| 0 <= k < prev.len() && #[trigger] entry_path(prev[k]) == Some(p);
                assert(entries[k] == prev[k]);
            }
            if entry_path(e) == Some(p) {
                assert(entry_path(entries[entries.len() - 1]) == Some(p));
            }
        }
        if e.len() == 0 {
            crate::text::lemma_first_index(e, '\t');
            assert(split_once(e, '\t') is None);
        }
        match split_once(e, '\t') {
            None => {
                assert forall|p: Seq<char>, st: char| !entry_lists(e, p, st) by {}
            },
            Some((meta, path)) => {
                let k = path_index(fs, path);
                lemma_path_index(fs, path);
                let stg = stage_of(meta);
                assert(seq!['1'][0] != seq!['2'][0] && seq!['1'][0] != seq!['3'][0] && seq!['2'][0] != seq!['3'][0]);
                assert(seq!['1'] != seq!['2'] && seq!['1'] != seq!['3'] && seq!['2'] != seq!['3']);
                assert forall|st: char| st == '1' || st == '2' || st == '3' implies entry_lists(e, path, st) == (stg
                    == seq![st]) by {
                    if words(meta).len() <= 2 {
                        assert(stg[0] != seq![st][0]);
                    }
                }
                assert forall|i: int| 0 <= i < n.len() implies {
                    &&& (#[trigger] n[i]).has_base == listed_at(entries, n[i].path, '1')
                    &&& n[i].has_ours == listed_at(entries, n[i].path, '2')
                    &&& n[i].has_theirs == listed_at(entries, n[i].path, '3')
                } by {
                    if i < fs.len() && fs[i].path != path {
                        assert(n[i] == fs[i]);
                        assert(!entry_lists(e, fs[i].path, '1'));
                        assert(!entry_lists(e, fs[i].path, '2'));
                        assert(!entry_lists(e, fs[i].path, '3'));
                    } else if i < fs.len() {
                        assert(i == k) by {
                            if i != k {
                                assert(fs[k].path == path);
                            }
                        }
                    } else {
                        assert(k < 0);
                        assert forall|st: char| !listed_at(prev, path, st) by {
                            if listed_at(prev, path, st) {
                                let j = choose|j: int| 0 <= j < prev.len() && entry_lists(#[trigger] prev[j], path, st);
                                assert(entry_path(prev[j]) == Some(path));
                                assert(listed(prev, path));
                            }
                        }
                    }
                }
                if k >= 0 {
                    assert forall|i: int| 0 <= i < n.len() && i != k implies n[i] == fs[i] by {}
                    assert forall|i: int, st: char| 0 <= i < n.len() && i != k implies !entry_lists(
                        e,
                        fs[i].path,
                        st,
                    ) by {
                        assert(fs[i].path != path) by {
                            if fs[i].path == path {
                                assert(fs[k].path == path);
                            }
                        }
                    }
                    assert(forall|p: Seq<char>| path_index(fs, p) >= 0 ==> path_index(n, p) >= 0) by {
                        assert forall|p: Seq<char>| path_index(fs, p) >= 0 implies path_index(n, p) >= 0 by {
                            lemma_path_index(fs, p);
                            lemma_path_index(n, p);
                            let j = path_index(fs, p);
                            assert(n[j].path == p);
                        }
                    }
                } else {
                    assert forall|i: int, st: char| 0 <= i < fs.len() implies !entry_lists(e, fs[i].path, st)
                        by {}
                    assert forall|st: char| !listed_at(prev, path, st) by {
                        if listed_at(prev, path, st) {
                            let j = choose|j: int| 0 <= j < prev.len() && entry_lists(#[trigger] prev[j], path, st);
                            assert(entry_path(prev[j]) == Some(path));
                            assert(listed(prev, path));
                        }
                    }
                    assert(n.last().path == path);
                    assert forall|i: int| 0 <= i < fs.len() implies #[trigger] n[i] == fs[i] by {}
                    assert forall|p: Seq<char>| path_index(fs, p) >= 0 implies path_index(n, p) >= 0 by {
                        lemma_path_index(fs, p);
                        lemma_path_index(n, p);
                        let j = path_index(fs, p);
                        assert(n[j].path == p);
                    }
                    lemma_path_index(n, path);
                    if path_index(n, path) < 0 {
                        assert(n[n.len() - 1].path == path);
                    }
                }
            },
        }
    }
}

/// What `git ls-files -u -z` gives: one file per listed path, and a file has
/// its base, local or remote stage exactly when some entry lists its path at
/// stage 1, 2 or 3.
pub proof fn law_ls_files_stages(text: Seq<char>)
    ensures
        ls_inv(split_on(text, '\0'), parse_ls_spec(text)),
{
    lemma_ls_fold(split_on(text, '\0'));
}

/// Parses the output of `git ls-files -u -z`. Each entry is
/// `<mode> <oid> <stage>\t<path>`, entries are separated by NUL, and a path
/// appears once per stage it has; the entries of one path become one file.
pub fn parse_ls_files_unmerged(text: &str) -> (files: Vec<ConflictedFile>)
    ensures
        files_view(files@) == parse_ls_spec(text@),
{
    let chars = chars_of(text);
    let entries = split_chars(&chars, '\0');
    let mut files: Vec<ConflictedFile> = Vec::new();
    let mut i: usize = 0;
    while i < entries.len()
        invariant
            0 <= i <= entries@.len(),
            chars_view(entries@) == split_on(text@, '\0'),
            files_view(files@) == ls_fold(chars_view(entries@).take(i as int)),
        decreases entries@.len() - i,
    {
        let ghost before = files_view(files@);
        let ghost ev = chars_view(entries@);
        assert(ev.take(i + 1).drop_last() =~= ev.take(i as int));
        assert(ev[i as int] == entries@[i as int]@);
        let entry = &entries[i];
        if entry.len() > 0 {
            proof {
                crate::text::lemma_first_index(entry@, '\t');
            }
            if let Some(tab) = find_char(entry, '\t') {
                let meta = sub_chars(entry, 0, tab);
                let path_chars = sub_chars(entry, tab + 1, entry.len());
                proof {
                    assert(meta@ =~= entry@.take(tab as int));
                    assert(path_chars@ =~= entry@.skip(tab + 1));
                }
                let ws = words_of(&meta);
                let (is1, is2, is3) = if ws.len() > 2 {
                    let w = &ws[2];
                    proof {
                        assert(chars_view(ws@)[2] == w@);
                    }
                    let single = w.len() == 1;
                    proof {
                        if single {
                            assert(w@ == seq![w@[0]]);
                        }
                    }
                    (single && w[0] == '1', single && w[0] == '2', single && w[0] == '3')
                } else {
                    (false, false, false)
                };
                proof {
                    let st = stage_of(meta@);
                    if ws@.len() > 2 {
                        assert(st == ws@[2]@);
                    } else {
                        assert(st =~= seq!['0']);
                    }
                    assert(is1 == (st == seq!['1'])) by {
                        if st == seq!['1'] {
                            assert(st.len() == 1 && st[0] == '1');
                        }
                    }
                    assert(is2 == (st == seq!['2'])) by {
                        if st == seq!['2'] {
                            assert(st.len() == 1 && st[0] == '2');
                        }
                    }
                    assert(is3 == (st == seq!['3'])) by {
                        if st == seq!['3'] {
                            assert(st.len() == 1 && st[0] == '3');
                        }
                    }
                }
                let path = string_of(&path_chars);
                let idx = find_file(&files, &path);
                proof {
                    lemma_path_index(before, path@);
                }
                match idx {
                    Some(k) => {
                        let f = &mut files[k];
                        if is1 {
                            f.has_base = true;
                        } else if is2 {
                            f.has_ours = true;
                        } else if is3 {
                            f.has_theirs = true;
                        }
                        proof {
                            assert(files_view(files@) =~= ls_step(before, ev[i as int]));
                        }
                    },
                    None => {
                        let f = ConflictedFile { path, has_base: is1, has_ours: is2, has_theirs: is3 };
                        files.push(f);
                        proof {
                            assert(files_view(files@) =~= ls_step(before, ev[i as int]));
                        }
                    },
                }
            } else {
                assert(files_view(files@) == ls_step(before, ev[i as int]));
            }
        } else {
            assert(files_view(files@) == ls_step(before, ev[i as int]));
        }
        i = i + 1;
    }
    assert(chars_view(entries@).take(entries@.len() as int) =~= chars_view(entries@));
    files
}

/// Index of the first file with this path.
fn find_file(files: &Vec<ConflictedFile>, path: &String) -> (r: Option<usize>)
    ensures
        match r {
            Some(k) => k == path_index(files_view(files@), path@),
            None => path_index(files_view(files@), path@) < 0,
        },
{
    let ghost fv = files_view(files@);
    proof {
        lemma_path_index(fv, path@);
    }
    let mut j: usize = 0;
    while j < files.len()
        invariant
            0 <= j <= files@.len(),
            fv == files_view(files@),
            fv.len() == files@.len(),
            forall|m: int| 0 <= m < j ==> #[trigger] fv[m].path != path@,
            -1 <= path_index(fv, path@) < fv.len(),
            path_index(fv, path@) >= 0 ==> fv[path_index(fv, path@)].path == path@,
            forall|m: int|
                0 <= m < fv.len() && (path_index(fv, path@) < 0 || m < path_index(fv, path@))
                    ==> fv[m].path != path@,
        decreases files@.len() - j,
    {
        assert(fv[j as int] == files@[j as int]@);
        if files[j].path == *path {
            return Some(j);
        }
        j = j + 1;
    }
    None
}

/// The captured result of one git command: whether it exited successfully,
/// and its output read as text.
#[derive(Debug, Clone)]
pub struct GitOutput {
    /// Exit status was success
    pub success: bool,
    /// Standard output
    pub stdout: String,
    /// Standard error
    pub stderr: String,
}

/// The git context: the repository root that anchors every command, and
/// whether commands are echoed.
#[derive(Debug, Clone)]
pub struct Git {
    top: String,
    verbose: bool,
}

/// The error of a process that could not be started: a missing executable,
/// or any other I/O error by its message.
pub fn spawn_err(not_found: bool, message: String) -> (e: GitError)
    ensures
        not_found ==> e == GitError::NotFound,
        !not_found ==> e == GitError::Io(message),
{
    if not_found {
        GitError::NotFound
    } else {
        GitError::Io(message)
    }
}

/// The message of a command that cannot run because nothing is in progress.
pub open spec fn nothing_in_progress() -> Seq<char> {
    "no merge operation is in progress"@
}

/// The command line of `--continue` or `--abort` for an operation in progress.
pub open spec fn op_args(state: RepoState, flag: Seq<char>, cont: bool) -> Seq<Seq<char>> {
    if cont {
        seq!["-c"@, "core.editor=true"@, op_name_spec(state), flag]
    } else {
        seq![op_name_spec(state), flag]
    }
}

/// The lines of a git output that name branches to offer: each line
/// trimmed, skipping empty names, the current branch and the symbolic
/// `HEAD` references (`HEAD` itself, or one ending in `/HEAD` such as
/// `origin/HEAD`).
pub open spec fn branch_names(lines: Seq<Seq<char>>, current: Seq<char>) -> Seq<Seq<char>>
    decreases lines.len(),
{
    if lines.len() == 0 {
        Seq::empty()
    } else {
        let name = trim_ws(lines.last());
        let rest = branch_names(lines.drop_last(), current);
        if name.len() == 0 || name == current || head_ref(name) {
            rest
        } else {
            rest.push(name)
        }
    }
}

/// Whether a name is a symbolic `HEAD` reference: `HEAD`, or a name ending
/// in `/HEAD`.
pub open spec fn head_ref(name: Seq<char>) -> bool {
    ||| name == seq!['H', 'E', 'A', 'D']
    ||| (name.len() >= 5 && name.subrange(name.len() - 5, name.len() as int) == seq!['/', 'H', 'E', 'A', 'D'])
}

/// Whether a name is a symbolic `HEAD` reference.
fn is_head_ref(c: &Vec<char>) -> (r: bool)
    ensures
        r == head_ref(c@),
{
    let n = c.len();
    let tail = n >= 4 && c[n - 4] == 'H' && c[n - 3] == 'E' && c[n - 2] == 'A' && c[n - 1] == 'D';
    let r = tail && (n == 4 || (n >= 5 && c[n - 5] == '/'));
    proof {
        if n == 4 && tail {
            assert(c@ =~= seq!['H', 'E', 'A', 'D']);
        }
        if n >= 5 && tail && c[n - 5] == '/' {
            assert(c@.subrange(n - 5, n as int) =~= seq!['/', 'H', 'E', 'A', 'D']);
        }
        if head_ref(c@) {
            if c@ == seq!['H', 'E', 'A', 'D'] {
                assert(n == 4 && c@[0] == 'H' && c@[3] == 'D');
            } else {
                let t = c@.subrange(n - 5, n as int);
                assert(t[0] == '/' && t[1] == 'H' && t[2] == 'E' && t[3] == 'A' && t[4] == 'D');
                assert(c@[n - 5] == t[0] && c@[n - 4] == t[1] && c@[n - 1] == t[4]);
                assert(c@[n - 3] == t[2] && c@[n - 2] == t[3]);
            }
        }
    }
    r
}

impl Git {
    /// The repository root.
    pub closed spec fn top_spec(&self) -> Seq<char> {
        self.top@
    }

    /// Whether commands are echoed.
    pub closed spec fn verbose_spec(&self) -> bool {
        self.verbose
    }

    /// The context found by `git rev-parse --show-toplevel`: the repository
    /// root is its trimmed output; a failed command means `dir` is not in a
    /// repository.
    pub fn discover(toplevel: &GitOutput, verbose: bool) -> (r: Result<Git, GitError>)
        ensures
            !toplevel.success ==> r == Err::<Git, GitError>(GitError::NotARepo),
            toplevel.success ==> r is Ok && r->Ok_0.top_spec() == trim_ws(toplevel.stdout@)
                && r->Ok_0.verbose_spec() == verbose,
    {
        if !toplevel.success {
            return Err(GitError::NotARepo);
        }
        let top = trim_string(&toplevel.stdout);
        Ok(Git { top, verbose })
    }

    /// The repository root.
    pub fn top(&self) -> (t: &str)
        ensures
            t@ == self.top_spec(),
    {
        self.top.as_str()
    }

    /// Whether executed commands are echoed.
    pub fn verbose(&self) -> (v: bool)
        ensures
            v == self.verbose_spec(),
    {
        self.verbose
    }

    /// Checks a command's exit: a failure becomes `GitError::Failed` naming
    /// the command and its trimmed stderr.
    pub fn run_ok(args: &Vec<String>, out: GitOutput) -> (r: Result<GitOutput, GitError>)
        ensures
            out.success ==> r == Ok::<GitOutput, GitError>(out),
            !out.success ==> (r matches Err(GitError::Failed { cmd, stderr }) && cmd@ == join(
                strings_view(args@),
                seq![' '],
            ) && stderr@ == trim_ws(out.stderr@)),
    {
        if out.success {
            return Ok(out);
        }
        let cmd = join_with_space(args);
        let stderr = trim_string(&out.stderr);
        Err(GitError::Failed { cmd, stderr })
    }

    /// The state of the repository from the markers in its git directory.
    pub fn state(marks: &GitDirMarks) -> (s: RepoState)
        ensures
            s == state_spec(*marks),
    {
        if marks.rebase_apply {
            if marks.applying {
                RepoState::Am
            } else {
                RepoState::Rebasing
            }
        } else if marks.rebase_merge {
            RepoState::Rebasing
        } else if marks.cherry_pick_head {
            RepoState::CherryPicking
        } else if marks.revert_head {
            RepoState::Reverting
        } else if marks.merge_head {
            RepoState::Merging
        } else {
            RepoState::Clean
        }
    }

    /// The conflicted files from the output of `git ls-files -u -z`.
    pub fn conflicted_files(ls_files: &GitOutput) -> (files: Vec<ConflictedFile>)
        ensures
            files_view(files@) == parse_ls_spec(ls_files.stdout@),
    {
        parse_ls_files_unmerged(ls_files.stdout.as_str())
    }

    /// The command line that reads one stage of a conflicted file
    /// (1 base, 2 ours, 3 theirs): `show :<stage>:<path>`.
    pub fn read_stage(path: &str, stage: u8) -> (args: Vec<String>)
        ensures
            strings_view(args@) == seq!["show"@, seq![':'] + decimal(stage as nat) + seq![':'] + path@],
    {
        proof {
            reveal_strlit(":");
        }
        let mut spec = String::from_str(":");
        let n = decimal_string(stage as usize);
        spec.append(n.as_str());
        spec.append(":");
        spec.append(path);
        assert(spec@ =~= seq![':'] + decimal(stage as nat) + seq![':'] + path@);
        let v = vec![String::from_str("show"), spec];
        proof {
            broadcast use lemma_strings_view;

            assert(strings_view(v@) =~= seq!["show"@, seq![':'] + decimal(stage as nat) + seq![':'] + path@]);
        }
        v
    }

    /// Branches to offer as merge or rebase targets: local ones, then remote
    /// tracking ones, without the current branch and `HEAD` references.
    /// The arguments are the outputs of `branch --show-current`,
    /// `branch --format=%(refname:short)` and `branch -r --format=%(refname:short)`.
    pub fn list_branches(current: &GitOutput, locals: &GitOutput, remotes: &GitOutput) -> (names: Vec<String>)
        ensures
            strings_view(names@) == branch_names(str_lines(locals.stdout@), trim_ws(current.stdout@))
                + branch_names(str_lines(remotes.stdout@), trim_ws(current.stdout@)),
    {
        let cur = trim_string(&current.stdout);
        let mut names: Vec<String> = Vec::new();
        push_branch_names(&mut names, &locals.stdout, &cur);
        let ghost mid = strings_view(names@);
        push_branch_names(&mut names, &remotes.stdout, &cur);
        proof {
            assert(mid =~= Seq::<Seq<char>>::empty() + branch_names(
                str_lines(locals.stdout@),
                trim_ws(current.stdout@),
            ));
        }
        names
    }

    /// The command line listing recent commits (`--oneline`): commits not on
    /// the current branch when `others_only` (cherry-pick candidates), else
    /// the current branch's own (revert candidates).
    pub fn recent_commits_args(others_only: bool, limit: usize) -> (args: Vec<String>)
        ensures
            strings_view(args@) == if others_only {
                seq!["log"@, "--oneline"@, "-n"@ + decimal(limit as nat), "--all"@, "--not"@, "HEAD"@]
            } else {
                seq!["log"@, "--oneline"@, "-n"@ + decimal(limit as nat)]
            },
    {
        let mut n = String::from_str("-n");
        let digits = decimal_string(limit);
        n.append(digits.as_str());
        let mut args = vec![String::from_str("log"), String::from_str("--oneline"), n];
        if others_only {
            args.push(String::from_str("--all"));
            args.push(String::from_str("--not"));
            args.push(String::from_str("HEAD"));
        }
        proof {
            broadcast use lemma_strings_view;

            if others_only {
                assert(strings_view(args@) =~= seq![
                    "log"@,
                    "--oneline"@,
                    "-n"@ + decimal(limit as nat),
                    "--all"@,
                    "--not"@,
                    "HEAD"@,
                ]);
            } else {
                assert(strings_view(args@) =~= seq!["log"@, "--oneline"@, "-n"@ + decimal(limit as nat)]);
            }
        }
        args
    }

    /// The recent commits from the output of the log command, one
    /// `--oneline` line each; a failed log (an empty repository) lists none.
    pub fn recent_commits(out: &GitOutput) -> (lines: Vec<String>)
        ensures
            strings_view(lines@) == if out.success {
                str_lines(out.stdout@)
            } else {
                Seq::empty()
            },
    {
        let mut lines: Vec<String> = Vec::new();
        if !out.success {
            return lines;
        }
        let ls = str_lines_of(out.stdout.as_str());
        let mut i: usize = 0;
        while i < ls.len()
            invariant
                0 <= i <= ls@.len(),
                chars_view(ls@) == str_lines(out.stdout@),
                strings_view(lines@) == chars_view(ls@).take(i as int),
            decreases ls@.len() - i,
        {
            let ghost before = lines@;
            let s = string_of(&ls[i]);
            lines.push(s);
            proof {
                lemma_strings_push(before, s);
                lemma_chars_view_take(ls@, i as int);
            }
            i = i + 1;
        }
        assert(chars_view(ls@).take(ls@.len() as int) =~= chars_view(ls@));
        lines
    }

    /// The command line that stages a resolved file: `add -- <path>`.
    pub fn stage_resolved(path: &str) -> (args: Vec<String>)
        ensures
            strings_view(args@) == seq!["add"@, "--"@, path@],
    {
        let v = vec![String::from_str("add"), String::from_str("--"), path.to_owned()];
        proof {
            broadcast use lemma_strings_view;

            assert(strings_view(v@) =~= seq!["add"@, "--"@, path@]);
        }
        v
    }

    /// The command line that continues the operation in progress (with
    /// `core.editor=true`, so no editor opens); nothing to continue is an error.
    pub fn continue_op(state: RepoState) -> (r: Result<Vec<String>, GitError>)
        ensures
            state == RepoState::Clean ==> (r matches Err(GitError::Failed { cmd, stderr }) && cmd@
                == "--continue"@ && stderr@ == nothing_in_progress()),
            state != RepoState::Clean ==> r is Ok && strings_view(r->Ok_0@) == op_args(
                state,
                "--continue"@,
                true,
            ),
    {
        if state == RepoState::Clean {
            return Err(
                GitError::Failed {
                    cmd: String::from_str("--continue"),
                    stderr: String::from_str("no merge operation is in progress"),
                },
            );
        }
        let v = vec![
            String::from_str("-c"),
            String::from_str("core.editor=true"),
            String::from_str(state.op_name()),
            String::from_str("--continue"),
        ];
        proof {
            broadcast use lemma_strings_view;

            assert(strings_view(v@) =~= op_args(state, "--continue"@, true));
        }
        Ok(v)
    }

    /// The command line that aborts the operation in progress; nothing to
    /// abort is an error.
    pub fn abort_op(state: RepoState) -> (r: Result<Vec<String>, GitError>)
        ensures
            state == RepoState::Clean ==> (r matches Err(GitError::Failed { cmd, stderr }) && cmd@
                == "--abort"@ && stderr@ == nothing_in_progress()),
            state != RepoState::Clean ==> r is Ok && strings_view(r->Ok_0@) == op_args(
                state,
                "--abort"@,
                false,
            ),
    {
        if state == RepoState::Clean {
            return Err(
                GitError::Failed {
                    cmd: String::from_str("--abort"),
                    stderr: String::from_str("no merge operation is in progress"),
                },
            );
        }
        let v = vec![String::from_str(state.op_name()), String::from_str("--abort")];
        proof {
            broadcast use lemma_strings_view;

            assert(strings_view(v@) =~= op_args(state, "--abort"@, false));
        }
        Ok(v)
    }
}

/// `s` with surrounding white space removed.
pub fn trim_string(s: &String) -> (t: String)
    ensures
        t@ == trim_ws(s@),
{
    let chars = chars_of(s.as_str());
    let (lo, hi) = trim_bounds(&chars, 0, chars.len());
    assert(chars@.subrange(0, chars@.len() as int) =~= chars@);
    crate::text::string_of_range(&chars, lo, hi)
}

/// The strings joined with single spaces.
pub fn join_with_space(parts: &Vec<String>) -> (s: String)
    ensures
        s@ == join(strings_view(parts@), seq![' ']),
{
    let mut out = String::new();
    let mut i: usize = 0;
    while i < parts.len()
        invariant
            0 <= i <= parts@.len(),
            out@ == join(strings_view(parts@.take(i as int)), seq![' ']),
        decreases parts@.len() - i,
    {
        let ghost prev = strings_view(parts@.take(i as int));
        assert(strings_view(parts@.take(i + 1)).drop_last() =~= prev);
        if i > 0 {
            out.append(" ");
            proof {
                reveal_strlit(" ");
            }
        }
        out.append(parts[i].as_str());
        proof {
            let now = strings_view(parts@.take(i + 1));
            assert(now.last() == parts@[i as int]@);
            if i == 0 {
                assert(now.len() == 1);
                assert(out@ =~= now[0]);
            } else {
                assert(out@ =~= join(prev, seq![' ']) + seq![' '] + now.last());
            }
        }
        i = i + 1;
    }
    assert(parts@.take(parts@.len() as int) =~= parts@);
    out
}

/// Appends the branch names of one `git branch` output.
fn push_branch_names(names: &mut Vec<String>, out: &String, current: &String)
    ensures
        strings_view(final(names)@) == strings_view(old(names)@) + branch_names(
            str_lines(out@),
            current@,
        ),
{
    let lines = str_lines_of(out.as_str());
    let mut i: usize = 0;
    while i < lines.len()
        invariant
            0 <= i <= lines@.len(),
            chars_view(lines@) == str_lines(out@),
            strings_view(names@) == strings_view(old(names)@) + branch_names(
                chars_view(lines@).take(i as int),
                current@,
            ),
        decreases lines@.len() - i,
    {
        let ghost ls = chars_view(lines@);
        assert(ls.take(i + 1).drop_last() =~= ls.take(i as int));
        assert(ls[i as int] == lines@[i as int]@);
        let line = &lines[i];
        let (lo, hi) = trim_bounds(line, 0, line.len());
        assert(line@.subrange(0, line@.len() as int) =~= line@);
        let name_chars = sub_chars(line, lo, hi);
        let name = string_of(&name_chars);
        let skip = name_chars.len() == 0 || name == *current || is_head_ref(&name_chars);
        let ghost before = names@;
        proof {
            lemma_chars_view_take(lines@, i as int);
            let t = ls.take(i + 1);
            assert(t.drop_last() =~= ls.take(i as int));
            assert(t.last() == line@);
            assert(name@ == trim_ws(line@));
        }
        if !skip {
            proof {
                lemma_strings_push(before, name);
            }
            names.push(name);
        }
        proof {
            assert(strings_view(names@) =~= strings_view(old(names)@) + branch_names(
                ls.take(i + 1),
                current@,
            ));
        }
        i = i + 1;
    }
    assert(chars_view(lines@).take(lines@.len() as int) =~= chars_view(lines@));
}

} // verus!
