//! What a key press does to a resolution session. The loop that reads keys,
//! draws, writes files, starts the editor and talks to the clipboard lives
//! with the program; every decision it takes is made here: a key becomes a
//! change of the session and of the transient UI state, and a `Step` that
//! tells the loop what outside work to do next.

use vstd::prelude::*;

use crate::app::{
    ChunkState, FileEntry, FileMerge, Session, Side, apply_spec, content_spec, ignore_spec, next_change_from,
    nonconflict_spec, pending_state, prev_change_before, same_except_cursor, same_frame, scan_conflict,
    state_updated, with_override,
};
use crate::text::{join, join_newline, strings_view};
use crate::ui::keymap::Action;

verus! {

/// How a session ended.
#[derive(Debug, Clone, Copy, PartialEq, Eq, Structural)]
pub enum Outcome {
    /// Every file was resolved and written
    Completed,
    /// The user left early (the repository keeps its state)
    Quit,
}

/// Transient state of the interface: the message line and the overlays.
#[derive(Debug)]
pub struct UiState {
    /// Text of the message line
    pub message: String,
    /// Whether the help overlay is shown
    pub show_help: bool,
    /// Whether a second quit key would leave with files still open
    pub pending_quit: bool,
    /// Bumped by every key that changes merged content (the result pane's
    /// highlighting is recomputed when it changes)
    pub revision: u64,
}

impl UiState {
    /// No message, no overlay, revision 0.
    pub fn new() -> (u: UiState)
        ensures
            u.message@ == Seq::<char>::empty(),
            !u.show_help,
            !u.pending_quit,
            u.revision == 0,
    {
        UiState { message: String::new(), show_help: false, pending_quit: false, revision: 0 }
    }
}

/// What was copied, for the message after the copy.
#[derive(Debug, Clone, Copy, PartialEq, Eq, Structural)]
pub enum CopyWhat {
    /// The chunk's current result, with its number of lines
    ChunkResult(usize),
    /// The whole file's current result
    File,
    /// The chunk's local side, with its number of lines
    ChunkLocal(usize),
    /// The chunk's remote side, with its number of lines
    ChunkRemote(usize),
}

/// Text for the clipboard.
#[derive(Debug)]
pub struct CopyRequest {
    /// The text to copy
    pub text: String,
    /// What it is
    pub what: CopyWhat,
}

/// What a key on the current file did.
#[derive(Debug)]
pub enum FileOutcome {
    /// Nothing that changes merged content
    Same,
    /// Merged content may have changed
    Changed,
    /// Merged content may have changed, and the message line says so
    ChangedWith(String),
    /// Something is to be copied
    Copy(CopyRequest),
}

/// What the loop does after a key.
#[derive(Debug)]
pub enum Step {
    /// Draw and read the next key
    Stay,
    /// End the session
    Leave(Outcome),
    /// Write `bytes` to `path`, then report with `finish_write`
    Write { path: String, bytes: Vec<u8>, auto_applied: usize },
    /// Let the user edit these lines, then report with `finish_edit`
    Edit(Vec<String>),
    /// Put text on the clipboard, then report with `finish_copy`
    Copy(CopyRequest),
}

/// Shown when the quit key is pressed with files still open.
pub open spec fn quit_confirm_msg() -> Seq<char> {
    "仍有文件未完成;再按一次 q 退出(未写盘的进度将丢弃)"@
}

/// Shown after taking every non-conflicting change.
pub open spec fn applied_all_msg() -> Seq<char> {
    "已应用全部非冲突改动"@
}

/// Shown when writing is refused.
pub open spec fn not_ready_msg() -> Seq<char> {
    "仍有未解决的冲突,无法写入(n 跳到下一处冲突)"@
}

/// Shown after an edit replaced the chunk.
pub open spec fn edited_msg() -> Seq<char> {
    "已用编辑结果覆写当前块"@
}

/// Shown when the edit was cancelled.
pub open spec fn edit_cancelled_msg() -> Seq<char> {
    "编辑已取消"@
}

/// Whether the file's cursor is in place: at most the number of chunks
/// (and, a machine limit, twice the number of chunks fits in `usize`).
pub open spec fn cursor_ok(e: FileEntry) -> bool {
    match e {
        FileEntry::Text(m) => m.cursor <= m.chunks@.len() && 2 * m.chunks@.len() <= usize::MAX,
        FileEntry::Binary { .. } => true,
    }
}

/// Whether the cursor names a chunk (a binary file has no chunks to name).
pub open spec fn cursor_in_chunk(e: FileEntry) -> bool {
    match e {
        FileEntry::Text(m) => m.cursor < m.chunks@.len(),
        FileEntry::Binary { .. } => true,
    }
}

/// The keys that read or change the chunk under the cursor.
pub open spec fn needs_cursor(a: Action) -> bool {
    match a {
        Action::TakeLocal | Action::TakeRemote | Action::IgnoreChunk | Action::UndoChunk | Action::EditChunk
        | Action::CopyChunk | Action::CopyLocal | Action::CopyRemote => true,
        _ => false,
    }
}

/// The chunk state at the cursor.
pub open spec fn cur_state(m: FileMerge) -> crate::app::StateView {
    m.states@[m.cursor as int]@
}

/// The kind of the chunk at the cursor.
pub open spec fn cur_kind(m: FileMerge) -> crate::merge::ChunkKind {
    m.chunks@[m.cursor as int].kind
}

/// `b` is `a` with the chunk at the cursor in state `st`.
pub open spec fn cursor_set(a: FileMerge, b: FileMerge, st: crate::app::StateView) -> bool {
    &&& b.wf()
    &&& same_frame(a, b)
    &&& state_updated(a.states@, b.states@, a.cursor as int, st)
}

/// `b` is `a` with the cursor moved to `to` (or kept when there is none).
pub open spec fn cursor_moved(a: FileMerge, b: FileMerge, to: Option<int>) -> bool {
    &&& same_except_cursor(a, b)
    &&& b.cursor == match to {
        Some(i) => i,
        None => a.cursor as int,
    }
}

/// What a key does to a text file.
pub open spec fn text_step(a: FileMerge, b: FileMerge, action: Action) -> bool {
    match action {
        Action::TakeLocal => cursor_set(a, b, apply_spec(cur_kind(a), cur_state(a), Side::Ours)),
        Action::TakeRemote => cursor_set(a, b, apply_spec(cur_kind(a), cur_state(a), Side::Theirs)),
        Action::IgnoreChunk => cursor_set(
            a,
            b,
            ignore_spec(cur_kind(a), ignore_spec(cur_kind(a), cur_state(a), Side::Ours), Side::Theirs),
        ),
        Action::UndoChunk => cursor_set(a, b, pending_state()),
        Action::UndoFile => {
            &&& b.wf()
            &&& same_frame(a, b)
            &&& b.states@.len() == a.states@.len()
            &&& forall|i: int| 0 <= i < b.states@.len() ==> #[trigger] b.states@[i]@ == pending_state()
        },
        Action::ApplyNonConflict => all_nonconflict_taken(a, b),
        Action::NextChange => cursor_moved(a, b, next_change_from(a.chunks@, a.cursor + 1)),
        Action::PrevChange => cursor_moved(a, b, prev_change_before(a.chunks@, a.cursor as int)),
        Action::NextConflict => cursor_moved(
            a,
            b,
            scan_conflict(a.chunks@, a.states@, a.cursor as int, 1, a.chunks@.len() as int, true),
        ),
        Action::PrevConflict => cursor_moved(
            a,
            b,
            scan_conflict(a.chunks@, a.states@, a.cursor as int, 1, a.chunks@.len() as int, false),
        ),
        _ => b == a,
    }
}

/// `b` is `a` with every pending non-conflicting change taken.
pub open spec fn all_nonconflict_taken(a: FileMerge, b: FileMerge) -> bool {
    &&& b.wf()
    &&& same_frame(a, b)
    &&& b.states@.len() == a.states@.len()
    &&& forall|i: int|
        0 <= i < b.states@.len() ==> #[trigger] b.states@[i]@ == nonconflict_spec(a.chunks@[i].kind, a.states@[i]@)
}

/// What a key does to a file: a text file changes as `text_step` says; of a
/// binary file the take keys choose a side and the undo key forgets the choice.
pub open spec fn file_step(a: FileEntry, b: FileEntry, action: Action) -> bool {
    match (a, b) {
        (FileEntry::Text(m), FileEntry::Text(n)) => text_step(m, n, action),
        (
            FileEntry::Binary { path: p, ours: o, theirs: t, choice: c },
            FileEntry::Binary { path: p2, ours: o2, theirs: t2, choice: c2 },
        ) => {
            &&& p2 == p
            &&& o2 == o
            &&& t2 == t
            &&& c2 == match action {
                Action::TakeLocal => Some(Side::Ours),
                Action::TakeRemote => Some(Side::Theirs),
                Action::UndoChunk => None,
                _ => c,
            }
        },
        _ => false,
    }
}

/// Whether a key changes merged content of a text file.
pub open spec fn changes_content(action: Action) -> bool {
    match action {
        Action::TakeLocal | Action::TakeRemote | Action::IgnoreChunk | Action::UndoChunk | Action::UndoFile
        | Action::ApplyNonConflict => true,
        _ => false,
    }
}

/// What is copied for a key on a text file, if anything: the text and what it is.
pub open spec fn copy_spec(m: FileMerge, action: Action) -> Option<(Seq<char>, CopyWhat)> {
    let c = m.chunks@[m.cursor as int]@;
    match action {
        Action::CopyChunk => {
            let lines = content_spec(c, cur_state(m));
            Some((join(lines, seq!['\n']), CopyWhat::ChunkResult(lines.len() as usize)))
        },
        Action::CopyFile => Some((m.resolved_text(), CopyWhat::File)),
        Action::CopyLocal => Some((join(c.ours, seq!['\n']), CopyWhat::ChunkLocal(c.ours.len() as usize))),
        Action::CopyRemote => Some((join(c.theirs, seq!['\n']), CopyWhat::ChunkRemote(c.theirs.len() as usize))),
        _ => None,
    }
}

/// What a key on the current file reports.
pub open spec fn outcome_ok(a: FileEntry, action: Action, r: FileOutcome) -> bool {
    match a {
        FileEntry::Text(m) => match copy_spec(m, action) {
            Some((text, what)) => r matches FileOutcome::Copy(q) && q.text@ == text && q.what == what,
            None => if action == Action::ApplyNonConflict {
                r matches FileOutcome::ChangedWith(s) && s@ == applied_all_msg()
            } else if changes_content(action) {
                r is Changed
            } else {
                r is Same
            },
        },
        FileEntry::Binary { .. } => r is Same,
    }
}

/// Applies a key to one file (the keys that act on the current file:
/// taking, ignoring, undoing, moving and copying).
pub fn file_key(entry: &mut FileEntry, action: Action) -> (r: FileOutcome)
    requires
        old(entry).wf(),
        cursor_ok(*old(entry)),
        needs_cursor(action) ==> cursor_in_chunk(*old(entry)),
    ensures
        final(entry).wf(),
        cursor_ok(*final(entry)),
        file_step(*old(entry), *final(entry), action),
        outcome_ok(*old(entry), action, r),
{
    match entry {
        FileEntry::Text(merge) => text_key(merge, action),
        FileEntry::Binary { choice, .. } => {
            match action {
                Action::TakeLocal => *choice = Some(Side::Ours),
                Action::TakeRemote => *choice = Some(Side::Theirs),
                Action::UndoChunk => *choice = None,
                _ => {},
            }
            FileOutcome::Same
        },
    }
}

/// Applies a key to a text file.
fn text_key(merge: &mut FileMerge, action: Action) -> (r: FileOutcome)
    requires
        old(merge).wf(),
        cursor_ok(FileEntry::Text(*old(merge))),
        needs_cursor(action) ==> old(merge).cursor < old(merge).chunks@.len(),
    ensures
        final(merge).wf(),
        cursor_ok(FileEntry::Text(*final(merge))),
        text_step(*old(merge), *final(merge), action),
        outcome_ok(FileEntry::Text(*old(merge)), action, r),
{
    match action {
        Action::TakeLocal => {
            merge.apply(Side::Ours);
            FileOutcome::Changed
        },
        Action::TakeRemote => {
            merge.apply(Side::Theirs);
            FileOutcome::Changed
        },
        Action::IgnoreChunk => {
            merge.ignore(Side::Ours);
            merge.ignore(Side::Theirs);
            FileOutcome::Changed
        },
        Action::UndoChunk => {
            merge.undo();
            FileOutcome::Changed
        },
        Action::UndoFile => {
            merge.undo_all();
            FileOutcome::Changed
        },
        Action::ApplyNonConflict => {
            merge.apply_all_nonconflict();
            FileOutcome::ChangedWith(String::from_str("已应用全部非冲突改动"))
        },
        Action::NextChange => {
            merge.next_change();
            proof {
                lemma_next_change_bound(old(merge).chunks@, old(merge).cursor + 1);
            }
            FileOutcome::Same
        },
        Action::PrevChange => {
            merge.prev_change();
            proof {
                lemma_prev_change_bound(old(merge).chunks@, old(merge).cursor as int);
            }
            FileOutcome::Same
        },
        Action::NextConflict => {
            merge.next_conflict();
            proof {
                lemma_scan_bound(
                    old(merge).chunks@,
                    old(merge).states@,
                    old(merge).cursor as int,
                    1,
                    old(merge).chunks@.len() as int,
                    true,
                );
            }
            FileOutcome::Same
        },
        Action::PrevConflict => {
            merge.prev_conflict();
            proof {
                lemma_scan_bound(
                    old(merge).chunks@,
                    old(merge).states@,
                    old(merge).cursor as int,
                    1,
                    old(merge).chunks@.len() as int,
                    false,
                );
            }
            FileOutcome::Same
        },
        Action::CopyChunk => {
            let lines = merge.current_content(merge.cursor);
            let n = lines.len();
            FileOutcome::Copy(CopyRequest { text: join_newline(&lines), what: CopyWhat::ChunkResult(n) })
        },
        Action::CopyFile => FileOutcome::Copy(CopyRequest { text: merge.resolved_content(), what: CopyWhat::File }),
        Action::CopyLocal => {
            let lines = &merge.chunks[merge.cursor].ours;
            FileOutcome::Copy(CopyRequest { text: join_newline(lines), what: CopyWhat::ChunkLocal(lines.len()) })
        },
        Action::CopyRemote => {
            let lines = &merge.chunks[merge.cursor].theirs;
            FileOutcome::Copy(CopyRequest { text: join_newline(lines), what: CopyWhat::ChunkRemote(lines.len()) })
        },
        _ => FileOutcome::Same,
    }
}

/// The next change lies inside the file.
proof fn lemma_next_change_bound(cs: Seq<crate::merge::MergeChunk>, i: int)
    ensures
        next_change_from(cs, i) matches Some(j) ==> 0 <= j < cs.len(),
    decreases cs.len() - i,
{
    if 0 <= i < cs.len() && cs[i].kind == crate::merge::ChunkKind::Stable {
        lemma_next_change_bound(cs, i + 1);
    }
}

/// The previous change lies inside the file.
proof fn lemma_prev_change_bound(cs: Seq<crate::merge::MergeChunk>, i: int)
    ensures
        prev_change_before(cs, i) matches Some(j) ==> 0 <= j < cs.len(),
    decreases i,
{
    if 0 < i <= cs.len() && cs[i - 1].kind == crate::merge::ChunkKind::Stable {
        lemma_prev_change_bound(cs, i - 1);
    }
}

/// A conflict found by scanning lies inside the file.
proof fn lemma_scan_bound(
    cs: Seq<crate::merge::MergeChunk>,
    ss: Seq<ChunkState>,
    cur: int,
    step: int,
    n: int,
    forward: bool,
)
    ensures
        scan_conflict(cs, ss, cur, step, n, forward) matches Some(j) ==> 0 <= j < n,
    decreases n + 1 - step,
{
    if 1 <= step <= n {
        lemma_scan_bound(cs, ss, cur, step + 1, n, forward);
    }
}

/// Whether a key can be handled: the session is in shape and, for a key
/// that reads the chunk under the cursor, the cursor names one.
pub open spec fn dispatch_ok(s: Session, a: Option<Action>) -> bool {
    &&& s.wf()
    &&& s.current < s.files@.len()
    &&& s.files@[s.current as int].wf()
    &&& cursor_ok(s.files@[s.current as int])
    &&& (a matches Some(x) && needs_cursor(x)) ==> cursor_in_chunk(s.files@[s.current as int])
}

/// The current file of a session.
pub open spec fn cur_file(s: Session) -> FileEntry {
    s.files@[s.current as int]
}

/// Whether every file of the session was written.
pub open spec fn all_written_spec(s: Session) -> bool {
    forall|i: int| 0 <= i < s.written@.len() ==> #[trigger] s.written@[i]
}

/// `b` is `a` with the current file replaced by `f`.
pub open spec fn with_current(a: Session, b: Session, f: FileEntry) -> bool {
    &&& b.files@ == a.files@.update(a.current as int, f)
    &&& b.current == a.current
    &&& b.written == a.written
    &&& b.op_label == a.op_label
    &&& b.folded == a.folded
}

/// The current file after a write was asked for: a text file gets its
/// pending non-conflicting changes taken, a binary file stays as it is.
pub open spec fn auto_applied(a: FileEntry, b: FileEntry) -> bool {
    match (a, b) {
        (FileEntry::Text(m), FileEntry::Text(n)) => all_nonconflict_taken(m, n),
        (FileEntry::Binary { .. }, _) => b == a,
        _ => false,
    }
}

/// Pending non-conflicting changes of a file (none in a binary file).
pub open spec fn pending_changes_of(e: FileEntry) -> nat {
    match e {
        FileEntry::Text(m) => m.pending_changes_spec(),
        FileEntry::Binary { .. } => 0,
    }
}

/// What a key does, once the help overlay is closed: to the session, to
/// the interface state, and which step follows. `pq` is whether a quit was
/// pending before the key (any other key cancels it).
pub open spec fn key_effect(s0: Session, u0: UiState, a: Option<Action>, s1: Session, u1: UiState, step: Step) -> bool {
    let pq = (a == Some(Action::Quit)) && u0.pending_quit;
    let keeps_ui = u1.show_help == u0.show_help && u1.revision == u0.revision;
    match a {
        None => s1 == s0 && keeps_ui && !u1.pending_quit && u1.message@.len() == 0 && step is Stay,
        Some(Action::Quit) => {
            &&& s1 == s0
            &&& keeps_ui
            &&& if all_written_spec(s0) || pq {
                &&& step == Step::Leave(Outcome::Quit)
                &&& u1.pending_quit == pq
                &&& u1.message@.len() == 0
            } else {
                &&& step is Stay
                &&& u1.pending_quit
                &&& u1.message@ == quit_confirm_msg()
            }
        },
        Some(Action::Help) => {
            &&& s1 == s0
            &&& u1.show_help
            &&& u1.revision == u0.revision
            &&& !u1.pending_quit
            &&& u1.message@.len() == 0
            &&& step is Stay
        },
        Some(Action::NextFile) => {
            &&& s1.current == (s0.current + 1) % (s0.files@.len() as int)
            &&& s1.files == s0.files
            &&& s1.written == s0.written
            &&& s1.op_label == s0.op_label
            &&& s1.folded == s0.folded
            &&& keeps_ui
            &&& !u1.pending_quit
            &&& u1.message@.len() == 0
            &&& step is Stay
        },
        Some(Action::ToggleFold) => {
            &&& s1.folded == !s0.folded
            &&& s1.files == s0.files
            &&& s1.current == s0.current
            &&& s1.written == s0.written
            &&& s1.op_label == s0.op_label
            &&& keeps_ui
            &&& !u1.pending_quit
            &&& step is Stay
            &&& u1.message@.len() == 0
        },
        Some(Action::WriteFile) => {
            &&& keeps_ui
            &&& !u1.pending_quit
            &&& if !cur_file(s0).ready_spec() {
                &&& s1 == s0
                &&& u1.message@ == not_ready_msg()
                &&& step is Stay
            } else {
                &&& with_current(s0, s1, cur_file(s1))
                &&& auto_applied(cur_file(s0), cur_file(s1))
                &&& u1.message@.len() == 0
                &&& step matches Step::Write { path, bytes, auto_applied: n } && path@ == cur_file(s1).path_spec()
                    && bytes@ == cur_file(s1).bytes_spec() && n == pending_changes_of(cur_file(s0))
            }
        },
        Some(Action::EditChunk) => {
            &&& s1 == s0
            &&& keeps_ui
            &&& !u1.pending_quit
            &&& u1.message@.len() == 0
            &&& match cur_file(s0) {
                FileEntry::Text(m) => step matches Step::Edit(lines) && strings_view(lines@) == content_spec(
                    m.chunks@[m.cursor as int]@,
                    cur_state(m),
                ),
                FileEntry::Binary { .. } => step is Stay,
            }
        },
        Some(x) => {
            &&& with_current(s0, s1, cur_file(s1))
            &&& file_step(cur_file(s0), cur_file(s1), x)
            &&& u1.show_help == u0.show_help
            &&& !u1.pending_quit
            &&& match cur_file(s0) {
                FileEntry::Text(m) => match copy_spec(m, x) {
                    Some((text, what)) => {
                        &&& step matches Step::Copy(q) && q.text@ == text && q.what == what
                        &&& u1.revision == u0.revision
                        &&& u1.message@.len() == 0
                    },
                    None => {
                        &&& step is Stay
                        &&& u1.revision == if changes_content(x) {
                            u0.revision + 1
                        } else {
                            u0.revision as int
                        }
                        &&& u1.message@ == if x == Action::ApplyNonConflict {
                            applied_all_msg()
                        } else {
                            Seq::empty()
                        }
                    },
                },
                FileEntry::Binary { .. } => step is Stay && u1.revision == u0.revision && u1.message@.len() == 0,
            }
        },
    }
}

/// Handles one key: a key closes the help overlay if it is open; otherwise
/// any key but quit cancels a pending quit, the message line is cleared,
/// and the key acts on the session. The returned step says what outside
/// work the loop does next.
pub fn on_key(session: &mut Session, ui: &mut UiState, action: Option<Action>) -> (step: Step)
    requires
        dispatch_ok(*old(session), action),
        old(ui).revision < u64::MAX,
    ensures
        final(session).wf(),
        final(session).files@.len() == old(session).files@.len(),
        final(session).current < final(session).files@.len(),
        if old(ui).show_help {
            &&& *final(session) == *old(session)
            &&& !final(ui).show_help
            &&& final(ui).message == old(ui).message
            &&& final(ui).pending_quit == old(ui).pending_quit
            &&& final(ui).revision == old(ui).revision
            &&& step is Stay
        } else {
            key_effect(*old(session), *old(ui), action, *final(session), *final(ui), step)
        },
{
    if ui.show_help {
        ui.show_help = false;
        return Step::Stay;
    }
    let is_quit = match action {
        Some(Action::Quit) => true,
        _ => false,
    };
    if !is_quit {
        ui.pending_quit = false;
    }
    ui.message = String::new();
    match action {
        None => Step::Stay,
        Some(Action::Quit) => {
            if session.all_written() || ui.pending_quit {
                Step::Leave(Outcome::Quit)
            } else {
                ui.pending_quit = true;
                ui.message = String::from_str("仍有文件未完成;再按一次 q 退出(未写盘的进度将丢弃)");
                Step::Stay
            }
        },
        Some(Action::Help) => {
            ui.show_help = true;
            Step::Stay
        },
        Some(Action::NextFile) => {
            let n = session.files.len();
            assert(session.current < n);
            session.next_file();
            Step::Stay
        },
        Some(Action::ToggleFold) => {
            session.folded = !session.folded;
            Step::Stay
        },
        Some(Action::WriteFile) => prepare_write(session, ui),
        Some(Action::EditChunk) => match session.current_file() {
            FileEntry::Text(m) => Step::Edit(m.current_content(m.cursor)),
            FileEntry::Binary { .. } => Step::Stay,
        },
        Some(a) => {
            let f = session.current_file_mut();
            let out = file_key(f, a);
            match out {
                FileOutcome::Same => Step::Stay,
                FileOutcome::Changed => {
                    ui.revision = ui.revision + 1;
                    Step::Stay
                },
                FileOutcome::ChangedWith(m) => {
                    ui.revision = ui.revision + 1;
                    ui.message = m;
                    Step::Stay
                },
                FileOutcome::Copy(q) => Step::Copy(q),
            }
        },
    }
}

/// The write key: refused while conflicts are open; otherwise the pending
/// non-conflicting changes are taken first (as git's automatic merge would
/// have), and the bytes to write are handed out.
fn prepare_write(session: &mut Session, ui: &mut UiState) -> (step: Step)
    requires
        dispatch_ok(*old(session), Some(Action::WriteFile)),
        old(ui).message@.len() == 0,
    ensures
        final(session).wf(),
        final(session).files@.len() == old(session).files@.len(),
        final(session).current < final(session).files@.len(),
        final(ui).show_help == old(ui).show_help,
        final(ui).revision == old(ui).revision,
        final(ui).pending_quit == old(ui).pending_quit,
        if !cur_file(*old(session)).ready_spec() {
            &&& *final(session) == *old(session)
            &&& final(ui).message@ == not_ready_msg()
            &&& step is Stay
        } else {
            &&& with_current(*old(session), *final(session), cur_file(*final(session)))
            &&& auto_applied(cur_file(*old(session)), cur_file(*final(session)))
            &&& final(ui).message@.len() == 0
            &&& step matches Step::Write { path, bytes, auto_applied: n } && path@ == cur_file(
                *final(session),
            ).path_spec() && bytes@ == cur_file(*final(session)).bytes_spec() && n == pending_changes_of(
                cur_file(*old(session)),
            )
        },
{
    if !session.current_file().ready_to_write() {
        ui.message = String::from_str("仍有未解决的冲突,无法写入(n 跳到下一处冲突)");
        return Step::Stay;
    }
    let mut auto: usize = 0;
    let f = session.current_file_mut();
    match f {
        FileEntry::Text(m) => {
            auto = m.pending_changes();
            m.apply_all_nonconflict();
        },
        FileEntry::Binary { .. } => {},
    }
    let entry = session.current_file();
    proof {
        assert(entry.wf());
    }
    let path = String::from_str(entry.path());
    let bytes = entry.resolved_bytes();
    Step::Write { path, bytes, auto_applied: auto }
}

/// Whether a key can be handled (see `dispatch_ok`).
pub fn can_dispatch(session: &Session, action: Option<Action>) -> (r: bool)
    ensures
        r == dispatch_ok(*session, action),
{
    if session.written.len() != session.files.len() || session.current >= session.files.len() {
        return false;
    }
    let needs = match action {
        Some(Action::TakeLocal) | Some(Action::TakeRemote) | Some(Action::IgnoreChunk) | Some(Action::UndoChunk)
        | Some(Action::EditChunk) | Some(Action::CopyChunk) | Some(Action::CopyLocal) | Some(Action::CopyRemote) => true,
        _ => false,
    };
    match session.current_file() {
        FileEntry::Text(m) => {
            let n = m.chunks.len();
            m.is_wf() && m.cursor <= n && n <= usize::MAX / 2 && (!needs || m.cursor < n)
        },
        FileEntry::Binary { .. } => true,
    }
}

/// The message after a file was written.
pub open spec fn written_msg(path: Seq<char>, n: nat) -> Seq<char> {
    if n > 0 {
        "✔ 已写入 "@ + path + "(自动应用了 "@ + crate::text::decimal(n) + " 处非冲突改动)"@
    } else {
        "✔ 已写入 "@ + path
    }
}

/// Reports a finished write: the file counts as written, the cursor moves
/// to the first file still open, and the session is complete once every
/// file was written.
pub fn finish_write(session: &mut Session, ui: &mut UiState, path: &String, auto_applied: usize) -> (step: Step)
    requires
        old(session).wf(),
        old(session).current < old(session).files@.len(),
        old(ui).revision < u64::MAX,
    ensures
        final(session).wf(),
        final(session).files == old(session).files,
        final(session).written@ == old(session).written@.update(old(session).current as int, true),
        final(session).current == match crate::app::next_unwritten(final(session).written@, old(session).current as int) {
            Some(i) => i,
            None => old(session).current as int,
        },
        final(session).op_label == old(session).op_label,
        final(session).folded == old(session).folded,
        final(ui).message@ == written_msg(path@, auto_applied as nat),
        final(ui).revision == old(ui).revision + 1,
        final(ui).show_help == old(ui).show_help,
        final(ui).pending_quit == old(ui).pending_quit,
        step == if all_written_spec(*final(session)) {
            Step::Leave(Outcome::Completed)
        } else {
            Step::Stay
        },
{
    session.mark_written();
    let mut msg = String::from_str("✔ 已写入 ");
    msg.append(path.as_str());
    if auto_applied > 0 {
        msg.append("(自动应用了 ");
        let d = crate::text::decimal_string(auto_applied);
        msg.append(d.as_str());
        msg.append(" 处非冲突改动)");
    }
    ui.message = msg;
    ui.revision = ui.revision + 1;
    if session.all_written() {
        Step::Leave(Outcome::Completed)
    } else {
        Step::Stay
    }
}

/// Reports the end of an edit: edited lines replace the chunk under the
/// cursor; a cancelled edit changes nothing but the message.
pub fn finish_edit(session: &mut Session, ui: &mut UiState, edited: Option<Vec<String>>)
    requires
        dispatch_ok(*old(session), Some(Action::EditChunk)),
        old(ui).revision < u64::MAX,
    ensures
        final(session).wf(),
        final(session).files@.len() == old(session).files@.len(),
        final(session).current < final(session).files@.len(),
        final(ui).show_help == old(ui).show_help,
        final(ui).pending_quit == old(ui).pending_quit,
        match (cur_file(*old(session)), edited) {
            (FileEntry::Text(m), Some(lines)) => {
                &&& with_current(*old(session), *final(session), cur_file(*final(session)))
                &&& cur_file(*final(session)) matches FileEntry::Text(n) && cursor_set(
                    m,
                    n,
                    with_override(cur_state(m), strings_view(lines@)),
                )
                &&& final(ui).revision == old(ui).revision + 1
                &&& final(ui).message@ == edited_msg()
            },
            (FileEntry::Text(_), None) => {
                &&& *final(session) == *old(session)
                &&& final(ui).revision == old(ui).revision
                &&& final(ui).message@ == edit_cancelled_msg()
            },
            _ => *final(session) == *old(session) && final(ui).revision == old(ui).revision
                && final(ui).message == old(ui).message,
        },
{
    let is_text = match session.current_file() {
        FileEntry::Text(_) => true,
        FileEntry::Binary { .. } => false,
    };
    if !is_text {
        return;
    }
    match edited {
        None => {
            ui.message = String::from_str("编辑已取消");
        },
        Some(lines) => {
            let f = session.current_file_mut();
            if let FileEntry::Text(m) = f {
                m.set_override(lines);
            }
            ui.revision = ui.revision + 1;
            ui.message = String::from_str("已用编辑结果覆写当前块");
        },
    }
}

/// The message after a copy.
pub open spec fn copy_msg(what: CopyWhat, result: Result<(), Seq<char>>) -> Seq<char> {
    match result {
        Err(e) => "复制失败:"@ + e,
        Ok(()) => match what {
            CopyWhat::ChunkResult(n) => "已复制当前块结果("@ + crate::text::decimal(n as nat) + " 行)"@,
            CopyWhat::File => "已复制整个文件的当前结果"@,
            CopyWhat::ChunkLocal(n) => "已复制当前块本地侧("@ + crate::text::decimal(n as nat) + " 行)"@,
            CopyWhat::ChunkRemote(n) => "已复制当前块远端侧("@ + crate::text::decimal(n as nat) + " 行)"@,
        },
    }
}

/// The view of a copy result.
pub open spec fn result_view(r: Result<(), String>) -> Result<(), Seq<char>> {
    match r {
        Ok(()) => Ok(()),
        Err(e) => Err(e@),
    }
}

/// Reports the end of a copy on the message line.
pub fn finish_copy(ui: &mut UiState, what: CopyWhat, result: Result<(), String>)
    ensures
        final(ui).message@ == copy_msg(what, result_view(result)),
        final(ui).show_help == old(ui).show_help,
        final(ui).pending_quit == old(ui).pending_quit,
        final(ui).revision == old(ui).revision,
{
    let msg = match result {
        Err(e) => {
            let mut m = String::from_str("复制失败:");
            m.append(e.as_str());
            m
        },
        Ok(()) => match what {
            CopyWhat::File => String::from_str("已复制整个文件的当前结果"),
            CopyWhat::ChunkResult(n) => counted_msg("已复制当前块结果(", n),
            CopyWhat::ChunkLocal(n) => counted_msg("已复制当前块本地侧(", n),
            CopyWhat::ChunkRemote(n) => counted_msg("已复制当前块远端侧(", n),
        },
    };
    ui.message = msg;
}

/// `head`, the count, and " 行)".
fn counted_msg(head: &str, n: usize) -> (m: String)
    ensures
        m@ == head@ + crate::text::decimal(n as nat) + " 行)"@,
{
    let mut m = String::from_str(head);
    let d = crate::text::decimal_string(n);
    m.append(d.as_str());
    m.append(" 行)");
    m
}

/// The lines an edited text stands for: one final newline (which editors
/// add) is dropped, an empty text is no lines, else the text split at `\n`.
pub open spec fn edited_spec(t: Seq<char>) -> Seq<Seq<char>> {
    let u = if t.len() > 0 && t.last() == '\n' {
        t.drop_last()
    } else {
        t
    };
    if u.len() == 0 {
        Seq::empty()
    } else {
        crate::text::split_on(u, '\n')
    }
}

/// The lines of an edited text.
pub fn edited_lines(text: &str) -> (lines: Vec<String>)
    ensures
        strings_view(lines@) == edited_spec(text@),
{
    let mut chars = crate::text::chars_of(text);
    let n = chars.len();
    if n > 0 && chars[n - 1] == '\n' {
        chars.pop();
        assert(chars@ =~= text@.drop_last());
    }
    let mut out: Vec<String> = Vec::new();
    if chars.len() == 0 {
        assert(strings_view(out@) =~= Seq::<Seq<char>>::empty());
        return out;
    }
    let pieces = crate::text::split_chars(&chars, '\n');
    let mut i: usize = 0;
    while i < pieces.len()
        invariant
            0 <= i <= pieces@.len(),
            strings_view(out@) == crate::text::chars_view(pieces@).take(i as int),
        decreases pieces@.len() - i,
    {
        let ghost before = out@;
        out.push(crate::text::string_of(&pieces[i]));
        proof {
            crate::text::lemma_strings_push(before, out@.last());
            assert(crate::text::chars_view(pieces@)[i as int] == pieces@[i as int]@);
            assert(strings_view(out@) =~= crate::text::chars_view(pieces@).take(i + 1));
        }
        i = i + 1;
    }
    assert(crate::text::chars_view(pieces@).take(pieces@.len() as int) =~= crate::text::chars_view(pieces@));
    out
}

} // verus!
