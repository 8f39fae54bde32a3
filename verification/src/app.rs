//! Resolution state of a conflict session: what the user decided for each
//! side of each chunk, the cursor, and the files of a session.
//!
//! Each side of a change chunk is pending, applied or ignored. Applied content
//! is appended in the order the sides were taken (taking both sides of a
//! conflict one after the other keeps both), and an edit made in `$EDITOR`
//! overrides the whole chunk.

use vstd::prelude::*;

use crate::merge::{ChunkKind, ChunkView, MergeChunk, MergeResult, ResultView, merge_text, merge_text_result, opt_view};
use crate::text::{append_lines, chars_of, copy_all_lines, join, join_newline, lemma_strings_view, push_char, strings_view};

verus! {

/// The side a change comes from.
#[derive(Debug, Clone, Copy, PartialEq, Eq, Structural)]
pub enum Side {
    /// Local side (left column)
    Ours,
    /// Remote side (right column)
    Theirs,
}

/// What has been decided for one side of a chunk.
#[derive(Debug, Clone, Copy, PartialEq, Eq, Structural)]
pub enum SideState {
    /// Not decided yet
    Pending,
    /// Taken into the result
    Applied,
    /// Left out of the result
    Ignored,
}

/// The decisions made for one chunk.
#[derive(Debug, Clone)]
pub struct ChunkState {
    /// State of the local side
    pub ours: SideState,
    /// State of the remote side
    pub theirs: SideState,
    /// Order in which sides were applied; their lines are joined in this order
    pub order: Vec<Side>,
    /// Lines written in `$EDITOR`, replacing the whole chunk
    pub override_lines: Option<Vec<String>>,
}

/// Mathematical view of a chunk state.
#[verifier::ext_equal]
pub struct StateView {
    pub ours: SideState,
    pub theirs: SideState,
    pub order: Seq<Side>,
    pub override_lines: Option<Seq<Seq<char>>>,
}

/// View of an optional vector of lines.
pub open spec fn lines_opt_view(o: Option<Vec<String>>) -> Option<Seq<Seq<char>>> {
    match o {
        Some(v) => Some(strings_view(v@)),
        None => None,
    }
}

impl View for ChunkState {
    type V = StateView;

    open spec fn view(&self) -> StateView {
        StateView {
            ours: self.ours,
            theirs: self.theirs,
            order: self.order@,
            override_lines: lines_opt_view(self.override_lines),
        }
    }
}

/// The state of a chunk nobody has touched.
pub open spec fn pending_state() -> StateView {
    StateView {
        ours: SideState::Pending,
        theirs: SideState::Pending,
        order: Seq::empty(),
        override_lines: None,
    }
}

/// State of one side.
pub open spec fn side_of(st: StateView, side: Side) -> SideState {
    match side {
        Side::Ours => st.ours,
        Side::Theirs => st.theirs,
    }
}

/// `st` with the state of one side replaced.
pub open spec fn with_side(st: StateView, side: Side, s: SideState) -> StateView {
    match side {
        Side::Ours => StateView { ours: s, theirs: st.theirs, order: st.order, override_lines: st.override_lines },
        Side::Theirs => StateView { ours: st.ours, theirs: s, order: st.order, override_lines: st.override_lines },
    }
}

impl ChunkState {
    /// A chunk state with nothing decided.
    fn new() -> (s: Self)
        ensures
            s@ == pending_state(),
    {
        ChunkState { ours: SideState::Pending, theirs: SideState::Pending, order: Vec::new(), override_lines: None }
    }

    /// State of one side.
    fn side(&self, side: Side) -> (r: SideState)
        ensures
            r == side_of(self@, side),
    {
        match side {
            Side::Ours => self.ours,
            Side::Theirs => self.theirs,
        }
    }

    /// Sets the state of one side.
    fn set_side(&mut self, side: Side, state: SideState)
        ensures
            final(self)@ == with_side(old(self)@, side, state),
    {
        match side {
            Side::Ours => self.ours = state,
            Side::Theirs => self.theirs = state,
        }
    }
}

/// The sides of a chunk that carry a change: the changed side of a one-sided
/// chunk, both sides of an agreeing or conflicting chunk, none of a stable one.
pub open spec fn effective_spec(kind: ChunkKind) -> Seq<Side> {
    match kind {
        ChunkKind::Ours => seq![Side::Ours],
        ChunkKind::Theirs => seq![Side::Theirs],
        ChunkKind::Agree => seq![Side::Ours, Side::Theirs],
        ChunkKind::Conflict => seq![Side::Ours, Side::Theirs],
        ChunkKind::Stable => Seq::empty(),
    }
}

/// Whether `side` carries a change in a chunk of this kind.
pub open spec fn is_effective(kind: ChunkKind, side: Side) -> bool {
    match kind {
        ChunkKind::Stable => false,
        ChunkKind::Ours => side == Side::Ours,
        ChunkKind::Theirs => side == Side::Theirs,
        ChunkKind::Agree => true,
        ChunkKind::Conflict => true,
    }
}

/// The sides of a chunk that carry a change.
fn effective_sides(kind: ChunkKind) -> (v: Vec<Side>)
    ensures
        v@ == effective_spec(kind),
{
    match kind {
        ChunkKind::Ours => vec![Side::Ours],
        ChunkKind::Theirs => vec![Side::Theirs],
        ChunkKind::Agree | ChunkKind::Conflict => vec![Side::Ours, Side::Theirs],
        ChunkKind::Stable => Vec::new(),
    }
}

/// Whether `side` is one of `sides`.
fn side_in(sides: &Vec<Side>, side: Side) -> (r: bool)
    ensures
        r == sides@.contains(side),
{
    let mut k: usize = 0;
    while k < sides.len()
        invariant
            0 <= k <= sides@.len(),
            forall|j: int| 0 <= j < k ==> sides@[j] != side,
        decreases sides@.len() - k,
    {
        if sides[k] == side {
            assert(sides@[k as int] == side);
            return true;
        }
        k = k + 1;
    }
    false
}

/// A chunk is done when it was overridden or no side carrying a change is
/// still pending (a stable chunk is always done).
pub open spec fn resolved(kind: ChunkKind, st: StateView) -> bool {
    ||| st.override_lines is Some
    ||| {
        &&& is_effective(kind, Side::Ours) ==> st.ours != SideState::Pending
        &&& is_effective(kind, Side::Theirs) ==> st.theirs != SideState::Pending
    }
}

/// Taking `side`: the side is applied and its lines are appended; taking
/// either side of an agreeing chunk applies both with one copy of the lines.
/// Nothing changes for a side without a change, an overridden chunk, or a
/// side already decided.
pub open spec fn apply_spec(kind: ChunkKind, st: StateView, side: Side) -> StateView {
    if !is_effective(kind, side) || st.override_lines is Some || side_of(st, side)
        != SideState::Pending {
        st
    } else if kind == ChunkKind::Agree {
        StateView {
            ours: SideState::Applied,
            theirs: SideState::Applied,
            order: seq![Side::Ours],
            override_lines: st.override_lines,
        }
    } else {
        let s = with_side(st, side, SideState::Applied);
        StateView { ours: s.ours, theirs: s.theirs, order: st.order.push(side), override_lines: s.override_lines }
    }
}

/// Ignoring `side`; ignoring either side of an agreeing chunk ignores both.
/// Nothing changes in the same cases as for `apply_spec`.
pub open spec fn ignore_spec(kind: ChunkKind, st: StateView, side: Side) -> StateView {
    if !is_effective(kind, side) || st.override_lines is Some || side_of(st, side)
        != SideState::Pending {
        st
    } else if kind == ChunkKind::Agree {
        StateView {
            ours: SideState::Ignored,
            theirs: SideState::Ignored,
            order: st.order,
            override_lines: st.override_lines,
        }
    } else {
        with_side(st, side, SideState::Ignored)
    }
}

/// Lines of one side of a chunk.
pub open spec fn side_lines(c: ChunkView, side: Side) -> Seq<Seq<char>> {
    match side {
        Side::Ours => c.ours,
        Side::Theirs => c.theirs,
    }
}

/// The lines of the sides in `order`, one after the other.
pub open spec fn taken_lines(c: ChunkView, order: Seq<Side>) -> Seq<Seq<char>>
    decreases order.len(),
{
    if order.len() == 0 {
        Seq::empty()
    } else {
        taken_lines(c, order.drop_last()) + side_lines(c, order.last())
    }
}

/// What a chunk contributes to the result: the override if there is one,
/// else the applied sides in take order, else the base lines.
pub open spec fn content_spec(c: ChunkView, st: StateView) -> Seq<Seq<char>> {
    match st.override_lines {
        Some(lines) => lines,
        None => if c.kind == ChunkKind::Stable || st.order.len() == 0 {
            c.base
        } else {
            taken_lines(c, st.order)
        },
    }
}

/// Whether a chunk is a conflict still waiting for a decision.
pub open spec fn pending_conflict(c: MergeChunk, st: ChunkState) -> bool {
    c.kind == ChunkKind::Conflict && !resolved(c.kind, st@)
}

/// Whether a chunk is a change still waiting for a decision.
pub open spec fn pending_change(c: MergeChunk, st: ChunkState) -> bool {
    c.kind != ChunkKind::Stable && !resolved(c.kind, st@)
}

/// Among the first `n` chunks, how many are pending conflicts
/// (`conflicts_only`) or pending changes.
pub open spec fn count_pending(cs: Seq<MergeChunk>, ss: Seq<ChunkState>, n: int, conflicts_only: bool) -> nat
    decreases n,
{
    if n <= 0 {
        0
    } else {
        count_pending(cs, ss, n - 1, conflicts_only) + if (if conflicts_only {
            pending_conflict(cs[n - 1], ss[n - 1])
        } else {
            pending_change(cs[n - 1], ss[n - 1])
        }) {
            1nat
        } else {
            0nat
        }
    }
}

/// The lines the first `n` chunks contribute, in file order.
pub open spec fn file_lines(cs: Seq<MergeChunk>, ss: Seq<ChunkState>, n: int) -> Seq<Seq<char>>
    decreases n,
{
    if n <= 0 {
        Seq::empty()
    } else {
        file_lines(cs, ss, n - 1) + content_spec(cs[n - 1]@, ss[n - 1]@)
    }
}

/// `text` followed by a newline when the inputs ended with one and the text
/// is not empty.
pub open spec fn with_final_newline(text: Seq<char>, ends: bool) -> Seq<char> {
    if ends && text.len() > 0 {
        text.push('\n')
    } else {
        text
    }
}

/// `c` is where the cursor starts: the first chunk that is not stable, or 0
/// when every chunk is stable.
pub open spec fn first_change(cs: Seq<MergeChunk>, c: int) -> bool {
    if exists|j: int| 0 <= j < cs.len() && #[trigger] cs[j].kind != ChunkKind::Stable {
        &&& 0 <= c < cs.len()
        &&& cs[c].kind != ChunkKind::Stable
        &&& forall|j: int| 0 <= j < c ==> #[trigger] cs[j].kind == ChunkKind::Stable
    } else {
        c == 0
    }
}

/// Whether a text ends with a line feed.
pub open spec fn ends_nl(s: Seq<char>) -> bool {
    s.len() > 0 && s.last() == '\n'
}

/// Index of the first chunk that is not stable, or 0.
fn first_change_index(chunks: &Vec<MergeChunk>) -> (c: usize)
    ensures
        first_change(chunks@, c as int),
{
    let mut i: usize = 0;
    while i < chunks.len()
        invariant
            0 <= i <= chunks@.len(),
            forall|j: int| 0 <= j < i ==> #[trigger] chunks@[j].kind == ChunkKind::Stable,
        decreases chunks@.len() - i,
    {
        if chunks[i].kind != ChunkKind::Stable {
            return i;
        }
        i = i + 1;
    }
    0
}

/// Whether `s` ends with a line feed.
fn ends_with_lf(s: &str) -> (b: bool)
    ensures
        b == ends_nl(s@),
{
    let chars = chars_of(s);
    chars.len() > 0 && chars[chars.len() - 1] == '\n'
}

/// The merge session of one text file: chunks, their states, and the cursor.
#[derive(Debug)]
pub struct FileMerge {
    /// Path of the file (relative to the repository root in git mode)
    pub path: String,
    /// The chunks; together they cover the whole file
    pub chunks: Vec<MergeChunk>,
    /// One state per chunk
    pub states: Vec<ChunkState>,
    /// Index of the chunk under the cursor (a change; 0 when there is none)
    pub cursor: usize,
    /// Scroll offset of the view, in lines (kept by the UI)
    pub scroll: usize,
    /// Whether the view follows the cursor chunk
    pub follow: bool,
    /// Label of the local column (a branch name)
    pub ours_label: Option<String>,
    /// Label of the remote column (a branch name)
    pub theirs_label: Option<String>,
    /// Whether the written file gets a final newline (any input ended with one)
    pub ends_with_newline: bool,
}

impl FileMerge {
    /// One state per chunk, and both sides of every agreeing chunk in step.
    pub open spec fn wf(&self) -> bool {
        &&& self.states@.len() == self.chunks@.len()
        &&& forall|i: int|
            0 <= i < self.states@.len() ==> agree_in_step(
                #[trigger] self.chunks@[i].kind,
                self.states@[i]@,
            )
    }

    /// Whether chunk `i` is done.
    pub open spec fn resolved_at(&self, i: int) -> bool {
        resolved(self.chunks@[i].kind, self.states@[i]@)
    }

    /// Number of pending conflicts.
    pub open spec fn pending_conflicts_spec(&self) -> nat {
        count_pending(self.chunks@, self.states@, self.chunks@.len() as int, true)
    }

    /// Number of pending changes.
    pub open spec fn pending_changes_spec(&self) -> nat {
        count_pending(self.chunks@, self.states@, self.chunks@.len() as int, false)
    }

    /// The text the file would be written with.
    pub open spec fn resolved_text(&self) -> Seq<char> {
        with_final_newline(
            join(file_lines(self.chunks@, self.states@, self.chunks@.len() as int), seq!['\n']),
            self.ends_with_newline,
        )
    }

    /// A session over `chunks` with nothing decided yet.
    pub open spec fn fresh(&self, path: Seq<char>, chunks: Seq<MergeChunk>, r: ResultView, ends: bool) -> bool {
        &&& self.wf()
        &&& self.path@ == path
        &&& self.chunks@ == chunks
        &&& forall|i: int| 0 <= i < self.states@.len() ==> #[trigger] self.states@[i]@ == pending_state()
        &&& first_change(self.chunks@, self.cursor as int)
        &&& self.scroll == 0
        &&& self.follow
        &&& opt_view(self.ours_label) == r.ours_label
        &&& opt_view(self.theirs_label) == r.theirs_label
        &&& self.ends_with_newline == ends
    }

    /// Builds the session of a file from three full texts (git three-way mode).
    pub fn from_three_way(path: String, base: &str, ours: &str, theirs: &str) -> (m: Self)
        requires
            base@.len() + ours@.len() + 1 <= usize::MAX,
            base@.len() + theirs@.len() + 1 <= usize::MAX,
        ensures
            exists|r: MergeResult|
                #[trigger] merge_text_result(base@, ours@, theirs@, r@) && m.fresh(
                    path@,
                    r.chunks@,
                    r@,
                    ends_nl(base@) || ends_nl(ours@) || ends_nl(theirs@),
                ),
    {
        let ends = ends_with_lf(base) || ends_with_lf(ours) || ends_with_lf(theirs);
        let ghost p = path@;
        let r = merge_text(base, ours, theirs);
        let ghost rv = r;
        let m = Self::from_result(path, r, ends);
        assert(merge_text_result(base@, ours@, theirs@, rv@) && m.fresh(p, rv.chunks@, rv@, ends));
        m
    }

    /// Builds the session of a file from a merge result (conflict-file mode).
    pub fn from_result(path: String, result: MergeResult, ends_with_newline: bool) -> (m: Self)
        ensures
            m.fresh(path@, result.chunks@, result@, ends_with_newline),
    {
        let ghost rv = result@;
        let MergeResult { chunks, ours_label, theirs_label, .. } = result;
        let mut states: Vec<ChunkState> = Vec::new();
        let mut i: usize = 0;
        while i < chunks.len()
            invariant
                0 <= i <= chunks@.len(),
                states@.len() == i,
                forall|k: int| 0 <= k < i ==> #[trigger] states@[k]@ == pending_state(),
            decreases chunks@.len() - i,
        {
            states.push(ChunkState::new());
            i = i + 1;
        }
        let cursor = first_change_index(&chunks);
        FileMerge {
            path,
            chunks,
            states,
            cursor,
            scroll: 0,
            follow: true,
            ours_label,
            theirs_label,
            ends_with_newline,
        }
    }

    /// Whether the file is in shape (see `wf`).
    pub fn is_wf(&self) -> (r: bool)
        ensures
            r == self.wf(),
    {
        if self.states.len() != self.chunks.len() {
            return false;
        }
        let mut i: usize = 0;
        while i < self.chunks.len()
            invariant
                0 <= i <= self.chunks@.len(),
                self.states@.len() == self.chunks@.len(),
                forall|k: int| 0 <= k < i ==> agree_in_step(#[trigger] self.chunks@[k].kind, self.states@[k]@),
            decreases self.chunks@.len() - i,
        {
            if self.chunks[i].kind == ChunkKind::Agree && self.states[i].ours != self.states[i].theirs {
                return false;
            }
            i = i + 1;
        }
        true
    }

    /// Whether chunk `idx` is done (overridden, or no changed side pending).
    pub fn chunk_resolved(&self, idx: usize) -> (r: bool)
        requires
            self.wf(),
            idx < self.chunks@.len(),
        ensures
            r == self.resolved_at(idx as int),
    {
        let state = &self.states[idx];
        if state.override_lines.is_some() {
            return true;
        }
        let kind = self.chunks[idx].kind;
        let sides = effective_sides(kind);
        let mut k: usize = 0;
        while k < sides.len()
            invariant
                0 <= k <= sides@.len(),
                sides@ == effective_spec(kind),
                kind == self.chunks@[idx as int].kind,
                *state == self.states@[idx as int],
                state@.override_lines is None,
                forall|j: int| 0 <= j < k ==> side_of(state@, #[trigger] sides@[j]) != SideState::Pending,
            decreases sides@.len() - k,
        {
            if state.side(sides[k]) == SideState::Pending {
                proof {
                    assert(is_effective(kind, sides@[k as int]));
                    assert(state@.override_lines is None);
                    if sides@[k as int] == Side::Ours {
                        assert(state@.ours == SideState::Pending);
                    } else {
                        assert(state@.theirs == SideState::Pending);
                    }
                }
                return false;
            }
            k = k + 1;
        }
        proof {
            if sides@.len() > 0 {
                assert(side_of(state@, sides@[0]) != SideState::Pending);
            }
            if sides@.len() > 1 {
                assert(side_of(state@, sides@[1]) != SideState::Pending);
            }
        }
        true
    }

    /// Number of conflicts not yet resolved (they must reach 0 before writing).
    pub fn pending_conflicts(&self) -> (n: usize)
        requires
            self.wf(),
        ensures
            n == self.pending_conflicts_spec(),
    {
        self.count_pending_exec(true)
    }

    /// Number of changes not yet resolved, conflicts included.
    pub fn pending_changes(&self) -> (n: usize)
        requires
            self.wf(),
        ensures
            n == self.pending_changes_spec(),
    {
        self.count_pending_exec(false)
    }

    /// Counts pending conflicts or pending changes.
    fn count_pending_exec(&self, conflicts_only: bool) -> (n: usize)
        requires
            self.wf(),
        ensures
            n == count_pending(self.chunks@, self.states@, self.chunks@.len() as int, conflicts_only),
    {
        let mut n: usize = 0;
        let mut i: usize = 0;
        while i < self.chunks.len()
            invariant
                self.wf(),
                0 <= i <= self.chunks@.len(),
                n <= i,
                n == count_pending(self.chunks@, self.states@, i as int, conflicts_only),
            decreases self.chunks@.len() - i,
        {
            let kind = self.chunks[i].kind;
            let counted = if conflicts_only {
                kind == ChunkKind::Conflict
            } else {
                kind != ChunkKind::Stable
            };
            if counted && !self.chunk_resolved(i) {
                n = n + 1;
            }
            i = i + 1;
        }
        n
    }

    /// Whether the file can be written: every conflict is resolved (changes
    /// left pending keep their base lines).
    pub fn ready_to_write(&self) -> (r: bool)
        requires
            self.wf(),
        ensures
            r == (self.pending_conflicts_spec() == 0),
    {
        self.pending_conflicts() == 0
    }

    /// What chunk `idx` currently contributes: the override, else the applied
    /// sides in take order, else the base lines.
    pub fn current_content(&self, idx: usize) -> (out: Vec<String>)
        requires
            self.wf(),
            idx < self.chunks@.len(),
        ensures
            strings_view(out@) == content_spec(self.chunks@[idx as int]@, self.states@[idx as int]@),
    {
        let chunk = &self.chunks[idx];
        let state = &self.states[idx];
        if let Some(lines) = &state.override_lines {
            return copy_all_lines(lines);
        }
        if chunk.kind == ChunkKind::Stable || state.order.len() == 0 {
            return copy_all_lines(&chunk.base);
        }
        let mut out: Vec<String> = Vec::new();
        let mut k: usize = 0;
        while k < state.order.len()
            invariant
                0 <= k <= state.order@.len(),
                strings_view(out@) == taken_lines(chunk@, state.order@.take(k as int)),
            decreases state.order@.len() - k,
        {
            assert(state.order@.take(k + 1).drop_last() =~= state.order@.take(k as int));
            match state.order[k] {
                Side::Ours => append_lines(&mut out, &chunk.ours),
                Side::Theirs => append_lines(&mut out, &chunk.theirs),
            }
            k = k + 1;
        }
        assert(state.order@.take(state.order@.len() as int) =~= state.order@);
        out
    }

    /// The whole file as it would be written: the chunks' lines joined with
    /// newlines, plus a final newline when the inputs ended with one.
    pub fn resolved_content(&self) -> (s: String)
        requires
            self.wf(),
        ensures
            s@ == self.resolved_text(),
    {
        let mut lines: Vec<String> = Vec::new();
        let mut i: usize = 0;
        while i < self.chunks.len()
            invariant
                self.wf(),
                0 <= i <= self.chunks@.len(),
                strings_view(lines@) == file_lines(self.chunks@, self.states@, i as int),
            decreases self.chunks@.len() - i,
        {
            let part = self.current_content(i);
            append_lines(&mut lines, &part);
            i = i + 1;
        }
        let mut text = join_newline(&lines);
        if self.ends_with_newline && !text.as_str().is_empty() {
            push_char(&mut text, '\n');
        }
        text
    }

    /// Takes `side` of the chunk under the cursor: its lines are appended in
    /// take order (taking both sides of a conflict keeps both); taking either
    /// side of an agreeing chunk resolves it with one copy of the lines.
    pub fn apply(&mut self, side: Side)
        requires
            old(self).wf(),
            old(self).cursor < old(self).chunks@.len(),
        ensures
            final(self).wf(),
            same_frame(*old(self), *final(self)),
            state_updated(
                old(self).states@,
                final(self).states@,
                old(self).cursor as int,
                apply_spec(
                    old(self).chunks@[old(self).cursor as int].kind,
                    old(self).states@[old(self).cursor as int]@,
                    side,
                ),
            ),
    {
        let idx = self.cursor;
        let kind = self.chunks[idx].kind;
        proof {
            lemma_effective(kind, side);
        }
        if !side_in(&effective_sides(kind), side) {
            return;
        }
        if self.states[idx].override_lines.is_some() || self.states[idx].side(side)
            != SideState::Pending {
            return;
        }
        let ghost before = self.states@[idx as int]@;
        let state = &mut self.states[idx];
        if kind == ChunkKind::Agree {
            state.ours = SideState::Applied;
            state.theirs = SideState::Applied;
            state.order = vec![Side::Ours];
        } else {
            state.set_side(side, SideState::Applied);
            state.order.push(side);
        }
        proof {
            assert(self.states@[idx as int]@.order =~= apply_spec(kind, before, side).order);
            assert(self.states@[idx as int]@ =~= apply_spec(kind, before, side));
            law_agree_stays_in_step(kind, before, side);
        }
    }

    /// Ignores `side` of the chunk under the cursor (its change stays out of
    /// the result); ignoring an agreeing chunk keeps its base lines.
    pub fn ignore(&mut self, side: Side)
        requires
            old(self).wf(),
            old(self).cursor < old(self).chunks@.len(),
        ensures
            final(self).wf(),
            same_frame(*old(self), *final(self)),
            state_updated(
                old(self).states@,
                final(self).states@,
                old(self).cursor as int,
                ignore_spec(
                    old(self).chunks@[old(self).cursor as int].kind,
                    old(self).states@[old(self).cursor as int]@,
                    side,
                ),
            ),
    {
        let idx = self.cursor;
        let kind = self.chunks[idx].kind;
        proof {
            lemma_effective(kind, side);
        }
        if !side_in(&effective_sides(kind), side) {
            return;
        }
        if self.states[idx].override_lines.is_some() || self.states[idx].side(side)
            != SideState::Pending {
            return;
        }
        let ghost before = self.states@[idx as int]@;
        let state = &mut self.states[idx];
        if kind == ChunkKind::Agree {
            state.ours = SideState::Ignored;
            state.theirs = SideState::Ignored;
        } else {
            state.set_side(side, SideState::Ignored);
        }
        proof {
            law_agree_stays_in_step(kind, before, side);
        }
    }

    /// Forgets every decision for the chunk under the cursor.
    pub fn undo(&mut self)
        requires
            old(self).wf(),
            old(self).cursor < old(self).chunks@.len(),
        ensures
            final(self).wf(),
            same_frame(*old(self), *final(self)),
            state_updated(old(self).states@, final(self).states@, old(self).cursor as int, pending_state()),
    {
        let idx = self.cursor;
        self.states[idx] = ChunkState::new();
    }

    /// Forgets every decision in the file, overrides included.
    pub fn undo_all(&mut self)
        requires
            old(self).wf(),
        ensures
            final(self).wf(),
            same_frame(*old(self), *final(self)),
            forall|i: int| 0 <= i < final(self).states@.len() ==> #[trigger] final(self).states@[i]@ == pending_state(),
    {
        let mut i: usize = 0;
        while i < self.states.len()
            invariant
                self.wf(),
                same_frame(*old(self), *self),
                self.states@.len() == old(self).states@.len(),
                0 <= i <= self.states@.len(),
                forall|k: int| 0 <= k < i ==> #[trigger] self.states@[k]@ == pending_state(),
            decreases self.states@.len() - i,
        {
            self.states[i] = ChunkState::new();
            i = i + 1;
        }
    }

    /// Replaces the chunk under the cursor with lines edited in `$EDITOR`
    /// (the chunk counts as resolved).
    pub fn set_override(&mut self, lines: Vec<String>)
        requires
            old(self).wf(),
            old(self).cursor < old(self).chunks@.len(),
        ensures
            final(self).wf(),
            same_frame(*old(self), *final(self)),
            state_updated(
                old(self).states@,
                final(self).states@,
                old(self).cursor as int,
                with_override(old(self).states@[old(self).cursor as int]@, strings_view(lines@)),
            ),
    {
        let idx = self.cursor;
        self.states[idx].override_lines = Some(lines);
    }

    /// Takes every pending change that is not a conflict (one-sided and
    /// agreeing chunks), each from its changed side.
    pub fn apply_all_nonconflict(&mut self)
        requires
            old(self).wf(),
        ensures
            final(self).wf(),
            same_frame(*old(self), *final(self)),
            final(self).states@.len() == old(self).states@.len(),
            forall|i: int|
                0 <= i < final(self).states@.len() ==> #[trigger] final(self).states@[i]@
                    == nonconflict_spec(old(self).chunks@[i].kind, old(self).states@[i]@),
            final(self).pending_changes_spec() == final(self).pending_conflicts_spec(),
            final(self).pending_conflicts_spec() == old(self).pending_conflicts_spec(),
            forall|i: int|
                0 <= i < final(self).states@.len() ==> nonconflict_spec(
                    final(self).chunks@[i].kind,
                    #[trigger] final(self).states@[i]@,
                ) == final(self).states@[i]@,
    {
        let ghost start = *self;
        let saved = self.cursor;
        let mut idx: usize = 0;
        while idx < self.chunks.len()
            invariant
                self.wf(),
                self.path == old(self).path,
                self.chunks == old(self).chunks,
                self.scroll == old(self).scroll,
                self.follow == old(self).follow,
                self.ours_label == old(self).ours_label,
                self.theirs_label == old(self).theirs_label,
                self.ends_with_newline == old(self).ends_with_newline,
                self.states@.len() == old(self).states@.len(),
                0 <= idx <= self.chunks@.len(),
                forall|k: int|
                    0 <= k < idx ==> #[trigger] self.states@[k]@ == nonconflict_spec(
                        old(self).chunks@[k].kind,
                        old(self).states@[k]@,
                    ),
                forall|k: int| idx <= k < self.states@.len() ==> #[trigger] self.states@[k] == old(self).states@[k],
            decreases self.chunks@.len() - idx,
        {
            let kind = self.chunks[idx].kind;
            if kind == ChunkKind::Stable || kind == ChunkKind::Conflict || self.chunk_resolved(idx) {
                idx = idx + 1;
                continue;
            }
            self.cursor = idx;
            let sides = effective_sides(kind);
            if sides.len() > 0 {
                self.apply(sides[0]);
            }
            idx = idx + 1;
        }
        self.cursor = saved;
        proof {
            law_nonconflict_leaves_only_conflicts(start, *self);
        }
    }

    /// Moves the cursor to the next change after it, if there is one.
    pub fn next_change(&mut self)
        requires
            old(self).cursor < usize::MAX,
        ensures
            final(self).chunks == old(self).chunks,
            final(self).states == old(self).states,
            final(self).cursor == match next_change_from(old(self).chunks@, old(self).cursor + 1) {
                Some(i) => i,
                None => old(self).cursor as int,
            },
            same_except_cursor(*old(self), *final(self)),
    {
        let mut i = self.cursor + 1;
        while i < self.chunks.len()
            invariant
                old(self).cursor + 1 <= i,
                self.chunks == old(self).chunks,
                self.cursor == old(self).cursor,
                next_change_from(self.chunks@, old(self).cursor + 1) == next_change_from(self.chunks@, i as int),
                same_except_cursor(*old(self), *self),
            decreases self.chunks@.len() - i,
        {
            if self.chunks[i].kind != ChunkKind::Stable {
                self.cursor = i;
                return;
            }
            i = i + 1;
        }
    }

    /// Moves the cursor to the previous change before it, if there is one.
    pub fn prev_change(&mut self)
        requires
            old(self).cursor <= old(self).chunks@.len(),
        ensures
            final(self).cursor == match prev_change_before(old(self).chunks@, old(self).cursor as int) {
                Some(i) => i,
                None => old(self).cursor as int,
            },
            same_except_cursor(*old(self), *final(self)),
    {
        let mut i = self.cursor;
        while i > 0
            invariant
                i <= old(self).cursor <= self.chunks@.len(),
                self.cursor == old(self).cursor,
                prev_change_before(self.chunks@, old(self).cursor as int) == prev_change_before(self.chunks@, i as int),
                same_except_cursor(*old(self), *self),
            decreases i,
        {
            if self.chunks[i - 1].kind != ChunkKind::Stable {
                self.cursor = i - 1;
                return;
            }
            i = i - 1;
        }
    }

    /// Jumps to the next unresolved conflict after the cursor, wrapping
    /// around at the end.
    pub fn next_conflict(&mut self)
        requires
            old(self).wf(),
            old(self).cursor + old(self).chunks@.len() <= usize::MAX,
        ensures
            final(self).cursor == match scan_conflict(
                old(self).chunks@,
                old(self).states@,
                old(self).cursor as int,
                1,
                old(self).chunks@.len() as int,
                true,
            ) {
                Some(i) => i,
                None => old(self).cursor as int,
            },
            same_except_cursor(*old(self), *final(self)),
    {
        self.seek_conflict(true)
    }

    /// Jumps to the previous unresolved conflict before the cursor, wrapping
    /// around at the start.
    pub fn prev_conflict(&mut self)
        requires
            old(self).wf(),
            old(self).cursor + old(self).chunks@.len() <= usize::MAX,
        ensures
            final(self).cursor == match scan_conflict(
                old(self).chunks@,
                old(self).states@,
                old(self).cursor as int,
                1,
                old(self).chunks@.len() as int,
                false,
            ) {
                Some(i) => i,
                None => old(self).cursor as int,
            },
            same_except_cursor(*old(self), *final(self)),
    {
        self.seek_conflict(false)
    }

    /// Cyclic search for an unresolved conflict, forward or backward.
    fn seek_conflict(&mut self, forward: bool)
        requires
            old(self).wf(),
            old(self).cursor + old(self).chunks@.len() <= usize::MAX,
        ensures
            final(self).cursor == match scan_conflict(
                old(self).chunks@,
                old(self).states@,
                old(self).cursor as int,
                1,
                old(self).chunks@.len() as int,
                forward,
            ) {
                Some(i) => i,
                None => old(self).cursor as int,
            },
            same_except_cursor(*old(self), *final(self)),
    {
        let n = self.chunks.len();
        let cur = self.cursor;
        let mut k: usize = 0;
        while k < n
            invariant
                self.wf(),
                n == self.chunks@.len(),
                cur == old(self).cursor,
                self.cursor == cur,
                cur + n <= usize::MAX,
                0 <= k <= n,
                same_except_cursor(*old(self), *self),
                scan_conflict(self.chunks@, self.states@, cur as int, 1, n as int, forward)
                    == scan_conflict(self.chunks@, self.states@, cur as int, k + 1, n as int, forward),
            decreases n - k,
        {
            let step = k + 1;
            let i = if forward {
                (cur + step) % n
            } else {
                (cur + n - step) % n
            };
            if self.chunks[i].kind == ChunkKind::Conflict && !self.chunk_resolved(i) {
                self.cursor = i;
                return;
            }
            k = k + 1;
        }
    }
}

/// One file of a session.
#[derive(Debug)]
pub enum FileEntry {
    /// A text file, resolved chunk by chunk
    Text(FileMerge),
    /// A binary file: one side or the other, whole
    Binary {
        /// Path of the file
        path: String,
        /// Full local bytes
        ours: Vec<u8>,
        /// Full remote bytes
        theirs: Vec<u8>,
        /// The side the user chose
        choice: Option<Side>,
    },
}

impl FileEntry {
    /// A text entry has one state per chunk.
    pub open spec fn wf(&self) -> bool {
        match self {
            FileEntry::Text(m) => m.wf(),
            FileEntry::Binary { .. } => true,
        }
    }

    /// Path of the file.
    pub open spec fn path_spec(&self) -> Seq<char> {
        match self {
            FileEntry::Text(m) => m.path@,
            FileEntry::Binary { path, .. } => path@,
        }
    }

    /// Whether the file may be written.
    pub open spec fn ready_spec(&self) -> bool {
        match self {
            FileEntry::Text(m) => m.pending_conflicts_spec() == 0,
            FileEntry::Binary { choice, .. } => choice is Some,
        }
    }

    /// The bytes the file would be written with: the resolved text in UTF-8,
    /// or the chosen side of a binary file (the local side unless the remote
    /// one was chosen).
    pub open spec fn bytes_spec(&self) -> Seq<u8> {
        match self {
            FileEntry::Text(m) => vstd::utf8::encode_utf8(m.resolved_text()),
            FileEntry::Binary { ours, theirs, choice, .. } => if *choice == Some(Side::Theirs) {
                theirs@
            } else {
                ours@
            },
        }
    }

    /// Path of the file.
    pub fn path(&self) -> (p: &str)
        ensures
            p@ == self.path_spec(),
    {
        match self {
            FileEntry::Text(m) => m.path.as_str(),
            FileEntry::Binary { path, .. } => path.as_str(),
        }
    }

    /// Whether the file may be written.
    pub fn ready_to_write(&self) -> (r: bool)
        requires
            self.wf(),
        ensures
            r == self.ready_spec(),
    {
        match self {
            FileEntry::Text(m) => m.ready_to_write(),
            FileEntry::Binary { choice, .. } => choice.is_some(),
        }
    }

    /// The bytes to write (meant for a file that is ready to be written).
    pub fn resolved_bytes(&self) -> (b: Vec<u8>)
        requires
            self.wf(),
        ensures
            b@ == self.bytes_spec(),
    {
        match self {
            FileEntry::Text(m) => {
                let text = m.resolved_content();
                vstd::slice::slice_to_vec(text.as_str().as_bytes())
            },
            FileEntry::Binary { ours, theirs, choice, .. } => match choice {
                Some(Side::Theirs) => vstd::slice::slice_to_vec(theirs.as_slice()),
                _ => vstd::slice::slice_to_vec(ours.as_slice()),
            },
        }
    }
}

/// A session over several conflicted files.
#[derive(Debug)]
pub struct Session {
    /// All files to resolve
    pub files: Vec<FileEntry>,
    /// Index of the current file
    pub current: usize,
    /// Which files were written
    pub written: Vec<bool>,
    /// Name of the operation shown in the status bar ("merge", "rebase", a file name)
    pub op_label: String,
    /// Whether long stable stretches are folded
    pub folded: bool,
}

/// The index `s` steps after `c` among `n` files, wrapping around
/// (for `c < n` and `1 <= s <= n`).
pub open spec fn step_index(c: int, s: int, n: int) -> int {
    if c + s < n {
        c + s
    } else {
        c + s - n
    }
}

/// The first file not written yet at `s` or more steps after file `c`, in
/// cyclic order (`c` itself comes last, at `n` steps).
pub open spec fn unwritten_from(w: Seq<bool>, c: int, s: int) -> Option<int>
    decreases w.len() + 1 - s,
{
    if s < 1 || s > w.len() {
        None
    } else if !w[step_index(c, s, w.len() as int)] {
        Some(step_index(c, s, w.len() as int))
    } else {
        unwritten_from(w, c, s + 1)
    }
}

/// The next file not written yet after file `c`, in cyclic order.
pub open spec fn next_unwritten(w: Seq<bool>, c: int) -> Option<int> {
    unwritten_from(w, c, 1)
}

impl Session {
    /// One written flag per file.
    pub open spec fn wf(&self) -> bool {
        self.written@.len() == self.files@.len()
    }

    /// A session on the first file, nothing written, stable stretches folded.
    pub fn new(files: Vec<FileEntry>, op_label: String) -> (s: Self)
        ensures
            s.wf(),
            s.files@ == files@,
            s.current == 0,
            forall|i: int| 0 <= i < s.written@.len() ==> !#[trigger] s.written@[i],
            s.op_label@ == op_label@,
            s.folded,
    {
        let mut written: Vec<bool> = Vec::new();
        let mut i: usize = 0;
        while i < files.len()
            invariant
                0 <= i <= files@.len(),
                written@.len() == i,
                forall|k: int| 0 <= k < i ==> !#[trigger] written@[k],
            decreases files@.len() - i,
        {
            written.push(false);
            i = i + 1;
        }
        Session { files, current: 0, written, op_label, folded: true }
    }

    /// The current file.
    pub fn current_file(&self) -> (f: &FileEntry)
        requires
            self.current < self.files@.len(),
        ensures
            *f == self.files@[self.current as int],
    {
        &self.files[self.current]
    }

    /// The current file, to be changed in place.
    pub fn current_file_mut(&mut self) -> (f: &mut FileEntry)
        requires
            old(self).current < old(self).files@.len(),
        ensures
            *f == old(self).files@[old(self).current as int],
            final(self).files@ == old(self).files@.update(old(self).current as int, *final(f)),
            final(self).current == old(self).current,
            final(self).written == old(self).written,
            final(self).op_label == old(self).op_label,
            final(self).folded == old(self).folded,
    {
        let cur = self.current;
        &mut self.files[cur]
    }

    /// Marks the current file as written and moves to the next file not
    /// written yet after it (wrapping around), if there is one.
    pub fn mark_written(&mut self)
        requires
            old(self).wf(),
            old(self).current < old(self).files@.len(),
        ensures
            final(self).wf(),
            final(self).files == old(self).files,
            final(self).written@ == old(self).written@.update(old(self).current as int, true),
            final(self).current == match next_unwritten(final(self).written@, old(self).current as int) {
                Some(i) => i,
                None => old(self).current as int,
            },
            final(self).op_label == old(self).op_label,
            final(self).folded == old(self).folded,
    {
        let cur = self.current;
        self.written.set(cur, true);
        let n = self.files.len();
        let mut s: usize = 1;
        while s < n
            invariant
                self.wf(),
                n == self.files@.len(),
                cur < n,
                self.files == old(self).files,
                self.written@ == old(self).written@.update(cur as int, true),
                self.current == cur,
                cur == old(self).current,
                self.op_label == old(self).op_label,
                self.folded == old(self).folded,
                1 <= s <= n,
                next_unwritten(self.written@, cur as int) == unwritten_from(self.written@, cur as int, s as int),
            decreases n - s,
        {
            let k = n - cur;
            let idx = if s < k {
                cur + s
            } else {
                s - k
            };
            assert(idx == step_index(cur as int, s as int, n as int));
            if !self.written[idx] {
                self.current = idx;
                return;
            }
            s = s + 1;
        }
        proof {
            // At `n` steps the cursor comes back to the file just written.
            assert(step_index(cur as int, n as int, n as int) == cur);
            assert(unwritten_from(self.written@, cur as int, n as int + 1) is None);
        }
    }

    /// Whether every file was written.
    pub fn all_written(&self) -> (r: bool)
        ensures
            r == forall|i: int| 0 <= i < self.written@.len() ==> #[trigger] self.written@[i],
    {
        let mut i: usize = 0;
        while i < self.written.len()
            invariant
                0 <= i <= self.written@.len(),
                forall|j: int| 0 <= j < i ==> #[trigger] self.written@[j],
            decreases self.written@.len() - i,
        {
            if !self.written[i] {
                return false;
            }
            i = i + 1;
        }
        true
    }

    /// Moves to the next file, wrapping around.
    pub fn next_file(&mut self)
        requires
            old(self).files@.len() > 0 ==> old(self).current < usize::MAX,
        ensures
            final(self).current == if old(self).files@.len() > 0 {
                (old(self).current + 1) % (old(self).files@.len() as int)
            } else {
                old(self).current as int
            },
            final(self).files == old(self).files,
            final(self).written == old(self).written,
            final(self).op_label == old(self).op_label,
            final(self).folded == old(self).folded,
    {
        if self.files.len() > 0 {
            self.current = (self.current + 1) % self.files.len();
        }
    }
}

/// Whether every field but the chunk states is unchanged.
pub open spec fn same_frame(a: FileMerge, b: FileMerge) -> bool {
    &&& b.path == a.path
    &&& b.chunks == a.chunks
    &&& b.cursor == a.cursor
    &&& b.scroll == a.scroll
    &&& b.follow == a.follow
    &&& b.ours_label == a.ours_label
    &&& b.theirs_label == a.theirs_label
    &&& b.ends_with_newline == a.ends_with_newline
}

/// Whether every field but the cursor is unchanged.
pub open spec fn same_except_cursor(a: FileMerge, b: FileMerge) -> bool {
    &&& b.path == a.path
    &&& b.chunks == a.chunks
    &&& b.states == a.states
    &&& b.scroll == a.scroll
    &&& b.follow == a.follow
    &&& b.ours_label == a.ours_label
    &&& b.theirs_label == a.theirs_label
    &&& b.ends_with_newline == a.ends_with_newline
}

/// `new` is `old` with the state at `idx` replaced by one whose view is `st`.
pub open spec fn state_updated(old: Seq<ChunkState>, new: Seq<ChunkState>, idx: int, st: StateView) -> bool {
    &&& new.len() == old.len()
    &&& new[idx]@ == st
    &&& forall|i: int| 0 <= i < old.len() && i != idx ==> #[trigger] new[i] == old[i]
}

/// `st` overridden by `lines`.
pub open spec fn with_override(st: StateView, lines: Seq<Seq<char>>) -> StateView {
    StateView { ours: st.ours, theirs: st.theirs, order: st.order, override_lines: Some(lines) }
}

/// What taking all non-conflicting changes does to one chunk: a pending
/// one-sided or agreeing change is taken from its changed side.
pub open spec fn nonconflict_spec(kind: ChunkKind, st: StateView) -> StateView {
    if kind == ChunkKind::Stable || kind == ChunkKind::Conflict || resolved(kind, st) {
        st
    } else {
        apply_spec(kind, st, effective_spec(kind)[0])
    }
}

/// The first change at or after `i`.
pub open spec fn next_change_from(cs: Seq<MergeChunk>, i: int) -> Option<int>
    decreases cs.len() - i,
{
    if i < 0 || i >= cs.len() {
        None
    } else if cs[i].kind != ChunkKind::Stable {
        Some(i)
    } else {
        next_change_from(cs, i + 1)
    }
}

/// The last change before `i`.
pub open spec fn prev_change_before(cs: Seq<MergeChunk>, i: int) -> Option<int>
    decreases i,
{
    if i <= 0 || i > cs.len() {
        None
    } else if cs[i - 1].kind != ChunkKind::Stable {
        Some(i - 1)
    } else {
        prev_change_before(cs, i - 1)
    }
}

/// The chunk `step` places after (`forward`) or before the cursor `cur`, in
/// cyclic order over `n` chunks.
pub open spec fn cyclic_pos(cur: int, step: int, n: int, forward: bool) -> int {
    if forward {
        (cur + step) % n
    } else {
        (cur + n - step) % n
    }
}

/// The first unresolved conflict met stepping `step`, `step + 1`, ..., `n`
/// chunks from `cur`, forward or backward, wrapping around.
pub open spec fn scan_conflict(
    cs: Seq<MergeChunk>,
    ss: Seq<ChunkState>,
    cur: int,
    step: int,
    n: int,
    forward: bool,
) -> Option<int>
    decreases n + 1 - step,
{
    if step < 1 || step > n {
        None
    } else {
        let i = cyclic_pos(cur, step, n, forward);
        if pending_conflict(cs[i], ss[i]) {
            Some(i)
        } else {
            scan_conflict(cs, ss, cur, step + 1, n, forward)
        }
    }
}

/// The lines of one taken side.
proof fn lemma_taken_one(c: ChunkView, side: Side)
    ensures
        taken_lines(c, seq![side]) == side_lines(c, side),
{
    let o = seq![side];
    assert(o.drop_last() =~= Seq::<Side>::empty());
    assert(o.last() == side);
    assert(taken_lines(c, o.drop_last()) == Seq::<Seq<char>>::empty());
    assert(Seq::<Seq<char>>::empty() + side_lines(c, side) =~= side_lines(c, side));
}

/// Taking both sides of a conflict, one after the other, keeps both: the
/// chunk is resolved and holds the first side's lines, then the second's.
pub proof fn law_take_both_sides_in_order(c: ChunkView, first: Side, second: Side)
    requires
        c.kind == ChunkKind::Conflict,
        first != second,
    ensures
        ({
            let st = apply_spec(c.kind, apply_spec(c.kind, pending_state(), first), second);
            &&& resolved(c.kind, st)
            &&& content_spec(c, st) == side_lines(c, first) + side_lines(c, second)
        }),
{
    let st1 = apply_spec(c.kind, pending_state(), first);
    let st = apply_spec(c.kind, st1, second);
    assert(st1.order =~= seq![first]);
    assert(st.order =~= seq![first, second]);
    assert(st.order.drop_last() =~= seq![first]);
    lemma_taken_one(c, first);
}

/// Taking one side of a conflict and ignoring the other resolves it with the
/// taken side's lines.
pub proof fn law_take_one_ignore_other(c: ChunkView, taken: Side, ignored: Side)
    requires
        c.kind == ChunkKind::Conflict,
        taken != ignored,
    ensures
        ({
            let st = ignore_spec(c.kind, apply_spec(c.kind, pending_state(), taken), ignored);
            &&& resolved(c.kind, st)
            &&& content_spec(c, st) == side_lines(c, taken)
        }),
{
    let st = ignore_spec(c.kind, apply_spec(c.kind, pending_state(), taken), ignored);
    assert(st.order =~= seq![taken]);
    lemma_taken_one(c, taken);
}

/// Ignoring both sides of a change resolves it and keeps its base lines.
pub proof fn law_ignore_both_keeps_base(c: ChunkView, first: Side, second: Side)
    requires
        c.kind != ChunkKind::Stable,
        first != second,
    ensures
        ({
            let st = ignore_spec(c.kind, ignore_spec(c.kind, pending_state(), first), second);
            &&& resolved(c.kind, st)
            &&& content_spec(c, st) == c.base
        }),
{
}

/// A chunk with nothing decided contributes its base lines, and a change in
/// that state is not resolved; so undoing a chunk gives back its base.
pub proof fn law_pending_keeps_base(c: ChunkView)
    ensures
        content_spec(c, pending_state()) == c.base,
        c.kind != ChunkKind::Stable ==> !resolved(c.kind, pending_state()),
{
}

/// An override resolves the chunk, becomes its content, and makes taking or
/// ignoring a side do nothing.
pub proof fn law_override_wins(c: ChunkView, st: StateView, lines: Seq<Seq<char>>, side: Side)
    ensures
        resolved(c.kind, with_override(st, lines)),
        content_spec(c, with_override(st, lines)) == lines,
        apply_spec(c.kind, with_override(st, lines), side) == with_override(st, lines),
        ignore_spec(c.kind, with_override(st, lines), side) == with_override(st, lines),
{
}

/// Taking either side of an agreeing change resolves it with one copy of its
/// lines.
pub proof fn law_agree_single_take(c: ChunkView, side: Side)
    requires
        c.kind == ChunkKind::Agree,
    ensures
        ({
            let st = apply_spec(c.kind, pending_state(), side);
            &&& resolved(c.kind, st)
            &&& content_spec(c, st) == c.ours
        }),
{
    let st = apply_spec(c.kind, pending_state(), side);
    assert(st.order =~= seq![Side::Ours]);
    lemma_taken_one(c, Side::Ours);
}

/// Taking or ignoring a side that carries no change in the chunk does nothing.
pub proof fn law_ineffective_side_is_noop(kind: ChunkKind, st: StateView, side: Side)
    requires
        !is_effective(kind, side),
    ensures
        apply_spec(kind, st, side) == st,
        ignore_spec(kind, st, side) == st,
{
}

/// Deciding a side is final until undone: taking or ignoring the same side
/// again changes nothing.
pub proof fn law_decisions_are_idempotent(kind: ChunkKind, st: StateView, side: Side)
    ensures
        apply_spec(kind, apply_spec(kind, st, side), side) == apply_spec(kind, st, side),
        ignore_spec(kind, ignore_spec(kind, st, side), side) == ignore_spec(kind, st, side),
{
}

/// In an agreeing chunk both sides always share one state (taking, ignoring
/// and undoing keep it so); the starting state has it.
pub open spec fn agree_in_step(kind: ChunkKind, st: StateView) -> bool {
    kind == ChunkKind::Agree ==> st.ours == st.theirs
}

/// Taking and ignoring keep both sides of an agreeing chunk in step.
pub proof fn law_agree_stays_in_step(kind: ChunkKind, st: StateView, side: Side)
    requires
        agree_in_step(kind, st),
    ensures
        agree_in_step(kind, apply_spec(kind, st, side)),
        agree_in_step(kind, ignore_spec(kind, st, side)),
        agree_in_step(kind, pending_state()),
{
}

/// Taking all non-conflicting changes resolves every one-sided or agreeing
/// change and leaves conflicts as they were.
pub proof fn law_nonconflict_pass(kind: ChunkKind, st: StateView)
    requires
        agree_in_step(kind, st),
    ensures
        kind == ChunkKind::Conflict ==> nonconflict_spec(kind, st) == st,
        kind != ChunkKind::Conflict ==> resolved(kind, nonconflict_spec(kind, st)),
{
}

/// When every pending change is a conflict, the two counts agree.
proof fn lemma_counts_agree(cs: Seq<MergeChunk>, ss: Seq<ChunkState>, n: int)
    requires
        0 <= n <= cs.len(),
        n <= ss.len(),
        forall|i: int| 0 <= i < n ==> pending_change(cs[i], ss[i]) == pending_conflict(#[trigger] cs[i], ss[i]),
    ensures
        count_pending(cs, ss, n, false) == count_pending(cs, ss, n, true),
    decreases n,
{
    if n > 0 {
        lemma_counts_agree(cs, ss, n - 1);
    }
}

/// After taking all non-conflicting changes, the pending changes of a file
/// are exactly its pending conflicts, those are the conflicts that were
/// pending before, and taking them all again changes nothing.
pub proof fn law_nonconflict_leaves_only_conflicts(before: FileMerge, after: FileMerge)
    requires
        before.wf(),
        after.chunks == before.chunks,
        after.states@.len() == before.states@.len(),
        forall|i: int|
            0 <= i < after.states@.len() ==> #[trigger] after.states@[i]@ == nonconflict_spec(
                before.chunks@[i].kind,
                before.states@[i]@,
            ),
    ensures
        after.wf(),
        after.pending_changes_spec() == after.pending_conflicts_spec(),
        after.pending_conflicts_spec() == before.pending_conflicts_spec(),
        forall|i: int|
            0 <= i < after.states@.len() ==> nonconflict_spec(
                after.chunks@[i].kind,
                #[trigger] after.states@[i]@,
            ) == after.states@[i]@,
{
    assert forall|i: int| 0 <= i < after.states@.len() implies agree_in_step(
        #[trigger] after.chunks@[i].kind,
        after.states@[i]@,
    ) by {
        assert(agree_in_step(before.chunks@[i].kind, before.states@[i]@));
        law_agree_stays_in_step(
            before.chunks@[i].kind,
            before.states@[i]@,
            effective_spec(before.chunks@[i].kind)[0],
        );
    }
    assert forall|i: int| 0 <= i < after.chunks@.len() implies pending_change(after.chunks@[i], after.states@[i])
        == pending_conflict(#[trigger] after.chunks@[i], after.states@[i]) by {
        assert(agree_in_step(before.chunks@[i].kind, before.states@[i]@));
        law_nonconflict_pass(before.chunks@[i].kind, before.states@[i]@);
    }
    assert forall|i: int| 0 <= i < after.states@.len() implies nonconflict_spec(
        after.chunks@[i].kind,
        #[trigger] after.states@[i]@,
    ) == after.states@[i]@ by {
        assert(agree_in_step(before.chunks@[i].kind, before.states@[i]@));
        law_nonconflict_pass(before.chunks@[i].kind, before.states@[i]@);
    }
    lemma_counts_agree(after.chunks@, after.states@, after.chunks@.len() as int);
    lemma_conflict_counts_kept(before, after, after.chunks@.len() as int);
}

/// Conflicts are untouched by the pass, so their count is kept.
proof fn lemma_conflict_counts_kept(before: FileMerge, after: FileMerge, n: int)
    requires
        before.wf(),
        after.chunks == before.chunks,
        after.states@.len() == before.states@.len(),
        0 <= n <= before.chunks@.len(),
        forall|i: int|
            0 <= i < after.states@.len() ==> #[trigger] after.states@[i]@ == nonconflict_spec(
                before.chunks@[i].kind,
                before.states@[i]@,
            ),
    ensures
        count_pending(after.chunks@, after.states@, n, true) == count_pending(before.chunks@, before.states@, n, true),
    decreases n,
{
    if n > 0 {
        lemma_conflict_counts_kept(before, after, n - 1);
        assert(after.states@[n - 1]@ == nonconflict_spec(before.chunks@[n - 1].kind, before.states@[n - 1]@));
    }
}

/// A file where nothing was decided contributes every chunk's base lines.
pub proof fn law_untouched_file_is_base(cs: Seq<MergeChunk>, ss: Seq<ChunkState>, n: int)
    requires
        0 <= n <= cs.len(),
        n <= ss.len(),
        forall|i: int| 0 <= i < n ==> #[trigger] ss[i]@ == pending_state(),
    ensures
        file_lines(cs, ss, n) == base_lines(cs, n),
    decreases n,
{
    if n > 0 {
        law_untouched_file_is_base(cs, ss, n - 1);
        assert(ss[n - 1]@ == pending_state());
    }
}

/// The base lines of the first `n` chunks, in file order.
pub open spec fn base_lines(cs: Seq<MergeChunk>, n: int) -> Seq<Seq<char>>
    decreases n,
{
    if n <= 0 {
        Seq::empty()
    } else {
        base_lines(cs, n - 1) + cs[n - 1]@.base
    }
}

/// `side` carries a change exactly when it is among the effective sides.
proof fn lemma_effective(kind: ChunkKind, side: Side)
    ensures
        effective_spec(kind).contains(side) == is_effective(kind, side),
{
    let e = effective_spec(kind);
    match kind {
        ChunkKind::Stable => {},
        ChunkKind::Ours => {
            assert(e[0] == Side::Ours);
        },
        ChunkKind::Theirs => {
            assert(e[0] == Side::Theirs);
        },
        _ => {
            assert(e[0] == Side::Ours);
            assert(e[1] == Side::Theirs);
        },
    }
}


/// Where the cyclic search for an unresolved conflict, starting `step`
/// places from the cursor, stops: at the first step that reaches a pending
/// conflict, or nowhere when no step up to `n` does.
proof fn lemma_scan_stops_first(cs: Seq<MergeChunk>, ss: Seq<ChunkState>, cur: int, step: int, n: int, forward: bool)
    requires
        1 <= step,
    ensures
        scan_conflict(cs, ss, cur, step, n, forward) matches Some(i) ==> exists|s: int|
            step <= s <= n && i == cyclic_pos(cur, s, n, forward) && pending_conflict(cs[i], ss[i])
                && forall|t: int|
                step <= t < s ==> !pending_conflict(
                    cs[cyclic_pos(cur, t, n, forward)],
                    #[trigger] ss[cyclic_pos(cur, t, n, forward)],
                ),
        scan_conflict(cs, ss, cur, step, n, forward) is None ==> forall|t: int|
            step <= t <= n ==> !pending_conflict(
                cs[cyclic_pos(cur, t, n, forward)],
                #[trigger] ss[cyclic_pos(cur, t, n, forward)],
            ),
    decreases n + 1 - step,
{
    if step <= n {
        lemma_scan_stops_first(cs, ss, cur, step + 1, n, forward);
        let i = cyclic_pos(cur, step, n, forward);
        if !pending_conflict(cs[i], ss[i]) {
            if let Some(j) = scan_conflict(cs, ss, cur, step, n, forward) {
                let s = choose|s: int|
                    step + 1 <= s <= n && j == cyclic_pos(cur, s, n, forward) && pending_conflict(cs[j], ss[j])
                        && forall|t: int|
                        step + 1 <= t < s ==> !pending_conflict(
                            cs[cyclic_pos(cur, t, n, forward)],
                            #[trigger] ss[cyclic_pos(cur, t, n, forward)],
                        );
                assert(step <= s <= n && j == cyclic_pos(cur, s, n, forward) && pending_conflict(cs[j], ss[j])
                    && forall|t: int|
                    step <= t < s ==> !pending_conflict(
                        cs[cyclic_pos(cur, t, n, forward)],
                        #[trigger] ss[cyclic_pos(cur, t, n, forward)],
                    ));
            }
        } else {
            assert(forall|t: int|
                step <= t < step ==> !pending_conflict(
                    cs[cyclic_pos(cur, t, n, forward)],
                    #[trigger] ss[cyclic_pos(cur, t, n, forward)],
                ));
        }
    }
}

/// Every chunk is some step away from the cursor, the cursor's own chunk
/// `n` steps away.
proof fn lemma_cyclic_reaches(cur: int, i: int, n: int, forward: bool) -> (s: int)
    requires
        0 <= cur < n,
        0 <= i < n,
    ensures
        1 <= s <= n,
        cyclic_pos(cur, s, n, forward) == i,
{
    let s = if forward {
        if i > cur { i - cur } else { i + n - cur }
    } else {
        if i < cur { cur - i } else { cur + n - i }
    };
    assert(i % n == i) by (nonlinear_arith)
        requires
            0 <= i < n,
    ;
    assert((i + n) % n == i) by (nonlinear_arith)
        requires
            0 <= i < n,
    ;
    s
}

/// Seeking an unresolved conflict visits the chunks in cyclic order, from the
/// one after (or before) the cursor round to the cursor's own chunk, and
/// stops at the first unresolved conflict it meets; it finds none exactly
/// when the file has no unresolved conflict.
pub proof fn law_seek_conflict_cyclic(cs: Seq<MergeChunk>, ss: Seq<ChunkState>, cur: int, forward: bool)
    requires
        ss.len() == cs.len(),
        0 <= cur < cs.len() || cs.len() == 0,
    ensures
        (scan_conflict(cs, ss, cur, 1, cs.len() as int, forward) is None) <==> (forall|i: int|
            0 <= i < cs.len() ==> !pending_conflict(cs[i], #[trigger] ss[i])),
        scan_conflict(cs, ss, cur, 1, cs.len() as int, forward) matches Some(i) ==> exists|s: int|
            1 <= s <= cs.len() && i == cyclic_pos(cur, s, cs.len() as int, forward) && pending_conflict(
                cs[i],
                ss[i],
            ) && forall|t: int|
                1 <= t < s ==> !pending_conflict(
                    cs[cyclic_pos(cur, t, cs.len() as int, forward)],
                    #[trigger] ss[cyclic_pos(cur, t, cs.len() as int, forward)],
                ),
{
    let n = cs.len() as int;
    lemma_scan_stops_first(cs, ss, cur, 1, n, forward);
    if let Some(j) = scan_conflict(cs, ss, cur, 1, n, forward) {
        let s = choose|s: int|
            1 <= s <= n && j == cyclic_pos(cur, s, n, forward) && pending_conflict(cs[j], ss[j])
                && forall|t: int|
                1 <= t < s ==> !pending_conflict(
                    cs[cyclic_pos(cur, t, n, forward)],
                    #[trigger] ss[cyclic_pos(cur, t, n, forward)],
                );
        assert(0 <= j < n) by {
            assert(0 <= (cur + s) % n < n) by (nonlinear_arith)
                requires
                    n > 0,
            ;
            assert(0 <= (cur + n - s) % n < n) by (nonlinear_arith)
                requires
                    n > 0,
            ;
        }
    } else {
        assert forall|i: int| 0 <= i < cs.len() implies !pending_conflict(cs[i], #[trigger] ss[i]) by {
            let s = lemma_cyclic_reaches(cur, i, n, forward);
            assert(ss[cyclic_pos(cur, s, n, forward)] == ss[i]);
        }
    }
}

} // verus!
