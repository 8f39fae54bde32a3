//! The rows of the three panes: each chunk laid out as parallel rows, long
//! stable stretches folded, and a placeholder in the result pane while a
//! conflict is unresolved.

use vstd::prelude::*;

use crate::app::{FileMerge, SideState, StateView, content_spec, file_lines, resolved};
use crate::merge::{ChunkKind, ChunkView, MergeChunk};
use crate::text::{copy_string, lemma_strings_view, strings_view};

verus! {

/// A stable stretch longer than this many lines is folded.
pub const FOLD_THRESHOLD: usize = 8;

/// Lines kept visible at each end of a folded stretch.
pub const FOLD_KEEP: usize = 3;

/// The kind of change of a chunk, which picks its band colour (blue
/// modified, green added, grey deleted, red conflict).
#[derive(Debug, Clone, Copy, PartialEq, Eq, Structural)]
pub enum ChangeType {
    /// Neither side changed anything
    Unchanged,
    /// Existing lines were changed
    Modified,
    /// Lines were added (the base has none there)
    Added,
    /// Lines were deleted (the changed side has none)
    Deleted,
    /// Both sides changed the lines differently
    Conflict,
}

/// The change type of a chunk: the nature of the one-sided or agreeing change.
pub open spec fn change_spec(c: ChunkView) -> ChangeType {
    let of = |side: Seq<Seq<char>>|
        if c.base.len() == 0 {
            ChangeType::Added
        } else if side.len() == 0 {
            ChangeType::Deleted
        } else {
            ChangeType::Modified
        };
    match c.kind {
        ChunkKind::Stable => ChangeType::Unchanged,
        ChunkKind::Conflict => ChangeType::Conflict,
        ChunkKind::Ours => of(c.ours),
        ChunkKind::Theirs => of(c.theirs),
        ChunkKind::Agree => of(c.ours),
    }
}

/// The change type of a chunk.
pub fn change_type(chunk: &MergeChunk) -> (t: ChangeType)
    ensures
        t == change_spec(chunk@),
{
    proof {
        broadcast use lemma_strings_view;

    }
    let side = match chunk.kind {
        ChunkKind::Stable => return ChangeType::Unchanged,
        ChunkKind::Conflict => return ChangeType::Conflict,
        ChunkKind::Ours => &chunk.ours,
        ChunkKind::Theirs => &chunk.theirs,
        ChunkKind::Agree => &chunk.ours,
    };
    assert(strings_view(chunk.base@).len() == chunk.base@.len());
    assert(strings_view(side@).len() == side@.len());
    if chunk.base.len() == 0 {
        ChangeType::Added
    } else if side.len() == 0 {
        ChangeType::Deleted
    } else {
        ChangeType::Modified
    }
}

/// One cell of a pane.
#[derive(Debug, Clone, PartialEq, Eq)]
pub enum Cell {
    /// A line of content
    Line {
        /// Line number in this pane (1-based)
        no: usize,
        /// Offset of the line inside its chunk
        offset: usize,
        /// The text, without line ending
        text: String,
    },
    /// Nothing in this pane on this row (the sides have different lengths)
    Empty,
    /// The "to be resolved" mark of an unresolved conflict in the result pane
    Placeholder,
}

/// Mathematical view of a cell.
pub enum CellView {
    Line { no: int, offset: int, text: Seq<char> },
    Empty,
    Placeholder,
}

impl View for Cell {
    type V = CellView;

    open spec fn view(&self) -> CellView {
        match self {
            Cell::Line { no, offset, text } => CellView::Line { no: *no as int, offset: *offset as int, text: text@ },
            Cell::Empty => CellView::Empty,
            Cell::Placeholder => CellView::Placeholder,
        }
    }
}

/// One row of the panes: a cell in each, or a fold mark across all three.
#[derive(Debug, Clone)]
pub struct Row {
    /// Index of the chunk the row belongs to
    pub chunk: usize,
    /// Change type of that chunk
    pub change: ChangeType,
    /// Whether that chunk is resolved
    pub resolved: bool,
    /// For a fold row, how many lines are folded
    pub fold: Option<usize>,
    /// State of the local side; None when that side has no change
    pub ours_state: Option<SideState>,
    /// State of the remote side; None when that side has no change
    pub theirs_state: Option<SideState>,
    /// Local pane cell
    pub ours: Cell,
    /// Result pane cell
    pub result: Cell,
    /// Remote pane cell
    pub theirs: Cell,
}

/// Mathematical view of a row.
pub struct RowView {
    pub chunk: int,
    pub change: ChangeType,
    pub resolved: bool,
    pub fold: Option<int>,
    pub ours_state: Option<SideState>,
    pub theirs_state: Option<SideState>,
    pub ours: CellView,
    pub result: CellView,
    pub theirs: CellView,
}

impl View for Row {
    type V = RowView;

    open spec fn view(&self) -> RowView {
        RowView {
            chunk: self.chunk as int,
            change: self.change,
            resolved: self.resolved,
            fold: match self.fold {
                Some(n) => Some(n as int),
                None => None,
            },
            ours_state: self.ours_state,
            theirs_state: self.theirs_state,
            ours: self.ours@,
            result: self.result@,
            theirs: self.theirs@,
        }
    }
}

/// Views of a sequence of rows.
pub open spec fn rows_view(v: Seq<Row>) -> Seq<RowView> {
    v.map_values(|r: Row| r@)
}

/// The side states a chunk shows: only the sides that carry a change.
pub open spec fn shown_states(kind: ChunkKind, st: StateView) -> (Option<SideState>, Option<SideState>) {
    match kind {
        ChunkKind::Ours => (Some(st.ours), None),
        ChunkKind::Theirs => (None, Some(st.theirs)),
        ChunkKind::Agree => (Some(st.ours), Some(st.theirs)),
        ChunkKind::Conflict => (Some(st.ours), Some(st.theirs)),
        ChunkKind::Stable => (None, None),
    }
}

/// Rows a chunk takes unfolded: its longest pane, at least one.
pub open spec fn height_spec(c: ChunkView, st: StateView) -> int {
    let a = c.ours.len();
    let b = content_spec(c, st).len();
    let t = c.theirs.len();
    let m1 = if a >= b { a } else { b };
    let m2 = if m1 >= t { m1 } else { t };
    if m2 >= 1 { m2 as int } else { 1 }
}

/// The row of an unresolved conflict that shows the placeholder (the middle one).
pub open spec fn placeholder_spec(c: ChunkView, st: StateView) -> Option<int> {
    if c.kind == ChunkKind::Conflict && !resolved(c.kind, st) {
        Some(height_spec(c, st) / 2)
    } else {
        None
    }
}

/// The cell of line `i` of a pane starting at line number `start`.
pub open spec fn cell_spec(lines: Seq<Seq<char>>, start: int, i: int) -> CellView {
    if 0 <= i < lines.len() {
        CellView::Line { no: start + i, offset: i, text: lines[i] }
    } else {
        CellView::Empty
    }
}

/// Row `i` of chunk `idx`, whose result lines start at number `rno`.
pub open spec fn row_spec(c: ChunkView, st: StateView, idx: int, rno: int, i: int) -> RowView {
    let (os, ts) = shown_states(c.kind, st);
    RowView {
        chunk: idx,
        change: change_spec(c),
        resolved: resolved(c.kind, st),
        fold: None,
        ours_state: os,
        theirs_state: ts,
        ours: cell_spec(c.ours, c.ours_start, i),
        result: match placeholder_spec(c, st) {
            Some(at) => if i == at {
                CellView::Placeholder
            } else {
                CellView::Empty
            },
            None => cell_spec(content_spec(c, st), rno, i),
        },
        theirs: cell_spec(c.theirs, c.theirs_start, i),
    }
}

/// The fold row of a folded stable chunk.
pub open spec fn fold_row_spec(c: ChunkView, st: StateView, idx: int) -> RowView {
    let (os, ts) = shown_states(c.kind, st);
    RowView {
        chunk: idx,
        change: change_spec(c),
        resolved: resolved(c.kind, st),
        fold: Some(c.base.len() - 2 * FOLD_KEEP),
        ours_state: os,
        theirs_state: ts,
        ours: CellView::Empty,
        result: CellView::Empty,
        theirs: CellView::Empty,
    }
}

/// Rows `lo..hi` of a chunk.
pub open spec fn row_range(c: ChunkView, st: StateView, idx: int, rno: int, lo: int, hi: int) -> Seq<RowView> {
    Seq::new((hi - lo) as nat, |k: int| row_spec(c, st, idx, rno, lo + k))
}

/// All rows of a chunk: a long stable chunk, when folding, keeps its first
/// and last `FOLD_KEEP` lines around one fold row.
pub open spec fn chunk_rows(c: ChunkView, st: StateView, idx: int, rno: int, folded: bool) -> Seq<RowView> {
    let len = c.base.len() as int;
    if c.kind == ChunkKind::Stable && folded && len > FOLD_THRESHOLD {
        row_range(c, st, idx, rno, 0, FOLD_KEEP as int) + seq![fold_row_spec(c, st, idx)] + row_range(
            c,
            st,
            idx,
            rno,
            len - FOLD_KEEP,
            len,
        )
    } else {
        row_range(c, st, idx, rno, 0, height_spec(c, st))
    }
}

/// The rows of the first `n` chunks of a file.
pub open spec fn file_rows(cs: Seq<MergeChunk>, ss: Seq<crate::app::ChunkState>, n: int, folded: bool) -> Seq<RowView>
    decreases n,
{
    if n <= 0 {
        Seq::empty()
    } else {
        file_rows(cs, ss, n - 1, folded) + chunk_rows(
            cs[n - 1]@,
            ss[n - 1]@,
            n - 1,
            1 + file_lines(cs, ss, n - 1).len() as int,
            folded,
        )
    }
}

/// Line numbers of every pane fit in `usize`.
pub open spec fn numbers_fit(m: FileMerge) -> bool {
    &&& file_lines(m.chunks@, m.states@, m.chunks@.len() as int).len() + 1 <= usize::MAX
    &&& forall|i: int|
        0 <= i < m.chunks@.len() ==> #[trigger] m.chunks@[i].ours_start + m.chunks@[i].ours@.len()
            <= usize::MAX && m.chunks@[i].theirs_start + m.chunks@[i].theirs@.len() <= usize::MAX
}

/// Result lines of earlier chunks never outnumber those of the whole file.
proof fn lemma_file_lines_grow(cs: Seq<MergeChunk>, ss: Seq<crate::app::ChunkState>, i: int, n: int)
    requires
        0 <= i <= n,
    ensures
        file_lines(cs, ss, i).len() <= file_lines(cs, ss, n).len(),
    decreases n - i,
{
    if i < n {
        lemma_file_lines_grow(cs, ss, i, n - 1);
    }
}

/// The cell of line `i` of a pane starting at line number `start`.
fn cell(lines: &Vec<String>, start: usize, i: usize) -> (c: Cell)
    requires
        start + lines@.len() <= usize::MAX,
    ensures
        c@ == cell_spec(strings_view(lines@), start as int, i as int),
{
    proof {
        broadcast use lemma_strings_view;

    }
    assert(strings_view(lines@).len() == lines@.len());
    if i < lines.len() {
        Cell::Line { no: start + i, offset: i, text: copy_string(&lines[i]) }
    } else {
        Cell::Empty
    }
}

/// What every row of one chunk shares, computed once.
struct ChunkFacts {
    change: ChangeType,
    resolved: bool,
    ours_state: Option<SideState>,
    theirs_state: Option<SideState>,
    placeholder: Option<usize>,
}

/// Whether the shared facts are those of chunk `c` in state `st`.
spec fn facts_ok(f: ChunkFacts, c: ChunkView, st: StateView) -> bool {
    &&& f.change == change_spec(c)
    &&& f.resolved == resolved(c.kind, st)
    &&& (f.ours_state, f.theirs_state) == shown_states(c.kind, st)
    &&& match f.placeholder {
        Some(p) => placeholder_spec(c, st) == Some(p as int),
        None => placeholder_spec(c, st) is None,
    }
}

/// Appends rows `lo..hi` of a chunk.
fn push_rows(
    rows: &mut Vec<Row>,
    chunk: &MergeChunk,
    state: &crate::app::ChunkState,
    idx: usize,
    facts: &ChunkFacts,
    result_lines: &Vec<String>,
    rno: usize,
    lo: usize,
    hi: usize,
)
    requires
        lo <= hi,
        facts_ok(*facts, chunk@, state@),
        strings_view(result_lines@) == content_spec(chunk@, state@),
        rno + result_lines@.len() <= usize::MAX,
        chunk.ours_start + chunk.ours@.len() <= usize::MAX,
        chunk.theirs_start + chunk.theirs@.len() <= usize::MAX,
    ensures
        rows_view(final(rows)@) == rows_view(old(rows)@) + row_range(
            chunk@,
            state@,
            idx as int,
            rno as int,
            lo as int,
            hi as int,
        ),
{
    let mut i = lo;
    while i < hi
        invariant
            lo <= i <= hi,
            facts_ok(*facts, chunk@, state@),
            strings_view(result_lines@) == content_spec(chunk@, state@),
            rno + result_lines@.len() <= usize::MAX,
            chunk.ours_start + chunk.ours@.len() <= usize::MAX,
            chunk.theirs_start + chunk.theirs@.len() <= usize::MAX,
            rows_view(rows@) == rows_view(old(rows)@) + row_range(
                chunk@,
                state@,
                idx as int,
                rno as int,
                lo as int,
                i as int,
            ),
        decreases hi - i,
    {
        let result = match facts.placeholder {
            Some(at) => if i == at {
                Cell::Placeholder
            } else {
                Cell::Empty
            },
            None => cell(result_lines, rno, i),
        };
        let row = Row {
            chunk: idx,
            change: facts.change,
            resolved: facts.resolved,
            fold: None,
            ours_state: facts.ours_state,
            theirs_state: facts.theirs_state,
            ours: cell(&chunk.ours, chunk.ours_start, i),
            result,
            theirs: cell(&chunk.theirs, chunk.theirs_start, i),
        };
        let ghost before = rows@;
        rows.push(row);
        proof {
            assert(row@ == row_spec(chunk@, state@, idx as int, rno as int, i as int));
            assert(rows_view(rows@) =~= rows_view(old(rows)@) + row_range(
                chunk@,
                state@,
                idx as int,
                rno as int,
                lo as int,
                i + 1,
            )) by {
                assert(rows_view(rows@) =~= rows_view(before).push(row@));
            }
        }
        i = i + 1;
    }
}

/// Lays the chunks of a file out as rows and returns, with them, the index
/// of each chunk's first row (for scrolling).
pub fn build_rows(merge: &FileMerge, folded: bool) -> (r: (Vec<Row>, Vec<usize>))
    requires
        merge.wf(),
        numbers_fit(*merge),
    ensures
        rows_view(r.0@) == file_rows(merge.chunks@, merge.states@, merge.chunks@.len() as int, folded),
        r.1@.len() == merge.chunks@.len(),
        forall|j: int|
            0 <= j < r.1@.len() ==> #[trigger] r.1@[j] == file_rows(merge.chunks@, merge.states@, j, folded).len(),
{
    let ghost cs = merge.chunks@;
    let ghost ss = merge.states@;
    let ghost n = cs.len() as int;
    let mut rows: Vec<Row> = Vec::new();
    let mut starts: Vec<usize> = Vec::new();
    let mut rno: usize = 1;
    let mut idx: usize = 0;
    while idx < merge.chunks.len()
        invariant
            merge.wf(),
            numbers_fit(*merge),
            cs == merge.chunks@,
            ss == merge.states@,
            n == cs.len(),
            0 <= idx <= n,
            rno == 1 + file_lines(cs, ss, idx as int).len(),
            rows_view(rows@) == file_rows(cs, ss, idx as int, folded),
            starts@.len() == idx,
            forall|j: int| 0 <= j < idx ==> #[trigger] starts@[j] == file_rows(cs, ss, j, folded).len(),
        decreases n - idx,
    {
        proof {
            lemma_file_lines_grow(cs, ss, idx + 1, n);
            assert(rows_view(rows@).len() == rows@.len());
        }
        starts.push(rows.len());
        let chunk = &merge.chunks[idx];
        let state = &merge.states[idx];
        let resolved = merge.chunk_resolved(idx);
        let change = change_type(chunk);
        let result_lines = merge.current_content(idx);
        proof {
            broadcast use lemma_strings_view;

            assert(strings_view(result_lines@).len() == result_lines@.len());
            assert(strings_view(chunk.ours@).len() == chunk.ours@.len());
            assert(strings_view(chunk.theirs@).len() == chunk.theirs@.len());
            assert(strings_view(chunk.base@).len() == chunk.base@.len());
            assert(file_lines(cs, ss, idx + 1) == file_lines(cs, ss, idx as int) + content_spec(
                cs[idx as int]@,
                ss[idx as int]@,
            ));
            assert(cs[idx as int].ours_start + cs[idx as int].ours@.len() <= usize::MAX);
        }
        let (ours_state, theirs_state) = match chunk.kind {
            ChunkKind::Ours => (Some(state.ours), None),
            ChunkKind::Theirs => (None, Some(state.theirs)),
            ChunkKind::Agree | ChunkKind::Conflict => (Some(state.ours), Some(state.theirs)),
            ChunkKind::Stable => (None, None),
        };
        let a = chunk.ours.len();
        let b = result_lines.len();
        let t = chunk.theirs.len();
        let m1 = if a >= b {
            a
        } else {
            b
        };
        let m2 = if m1 >= t {
            m1
        } else {
            t
        };
        let height = if m2 >= 1 {
            m2
        } else {
            1
        };
        let placeholder = if chunk.kind == ChunkKind::Conflict && !resolved {
            Some(height / 2)
        } else {
            None
        };
        let facts = ChunkFacts { change, resolved, ours_state, theirs_state, placeholder };
        let len = chunk.base.len();
        let ghost before = rows_view(rows@);
        if chunk.kind == ChunkKind::Stable && folded && len > FOLD_THRESHOLD {
            push_rows(&mut rows, chunk, state, idx, &facts, &result_lines, rno, 0, FOLD_KEEP);
            let fold_row = Row {
                chunk: idx,
                change,
                resolved,
                fold: Some(len - FOLD_KEEP * 2),
                ours_state,
                theirs_state,
                ours: Cell::Empty,
                result: Cell::Empty,
                theirs: Cell::Empty,
            };
            let ghost mid = rows@;
            rows.push(fold_row);
            proof {
                assert(rows_view(rows@) =~= rows_view(mid).push(fold_row@));
                assert(fold_row@ == fold_row_spec(chunk@, state@, idx as int));
            }
            push_rows(&mut rows, chunk, state, idx, &facts, &result_lines, rno, len - FOLD_KEEP, len);
        } else {
            push_rows(&mut rows, chunk, state, idx, &facts, &result_lines, rno, 0, height);
        }
        proof {
            assert(rows_view(rows@) =~= before + chunk_rows(
                cs[idx as int]@,
                ss[idx as int]@,
                idx as int,
                rno as int,
                folded,
            ));
            assert(file_rows(cs, ss, idx + 1, folded) == file_rows(cs, ss, idx as int, folded) + chunk_rows(
                cs[idx as int]@,
                ss[idx as int]@,
                idx as int,
                1 + file_lines(cs, ss, idx as int).len() as int,
                folded,
            ));
        }
        rno = rno + result_lines.len();
        idx = idx + 1;
    }
    (rows, starts)
}

/// The line number a cell shows; 0 for none.
pub open spec fn cell_no(c: CellView) -> int {
    match c {
        CellView::Line { no, .. } => no,
        _ => 0,
    }
}

/// The larger of two numbers.
pub open spec fn max_of(a: int, b: int) -> int {
    if a >= b {
        a
    } else {
        b
    }
}

/// The largest line number the rows show, and at least 1 (line numbers
/// start at 1): the width of the number column follows it.
pub open spec fn max_no_of(rows: Seq<RowView>) -> int
    decreases rows.len(),
{
    if rows.len() == 0 {
        1
    } else {
        let r = rows.last();
        max_of(max_of(max_of(max_no_of(rows.drop_last()), cell_no(r.ours)), cell_no(r.result)), cell_no(r.theirs))
    }
}

/// The number a cell shows.
fn cell_number(c: &Cell) -> (n: usize)
    ensures
        n == cell_no(c@),
{
    match c {
        Cell::Line { no, .. } => *no,
        _ => 0,
    }
}

/// The largest line number in some rows.
fn max_line_no(rows: &Vec<Row>) -> (m: usize)
    ensures
        m == max_no_of(rows_view(rows@)),
{
    let ghost rv = rows_view(rows@);
    let mut m: usize = 1;
    let mut i: usize = 0;
    while i < rows.len()
        invariant
            0 <= i <= rows@.len(),
            rv == rows_view(rows@),
            m == max_no_of(rv.take(i as int)),
        decreases rows@.len() - i,
    {
        proof {
            assert(rv.take(i + 1).drop_last() =~= rv.take(i as int));
            assert(rv.take(i + 1).last() == rows@[i as int]@);
        }
        let r = &rows[i];
        let a = cell_number(&r.ours);
        let b = cell_number(&r.result);
        let c = cell_number(&r.theirs);
        if a > m {
            m = a;
        }
        if b > m {
            m = b;
        }
        if c > m {
            m = c;
        }
        i = i + 1;
    }
    assert(rv.take(rows@.len() as int) =~= rv);
    m
}

/// The rows of a file kept between frames: they are rebuilt only when the
/// file, its revision or the folding changes, so moving the cursor costs nothing.
#[derive(Debug)]
pub struct RowCache {
    key: Option<(usize, u64, bool)>,
    rows: Vec<Row>,
    chunk_starts: Vec<usize>,
    max_no: usize,
}

impl RowCache {
    /// What the cached rows were built for: (file, revision, folded).
    pub closed spec fn key_spec(&self) -> Option<(usize, u64, bool)> {
        self.key
    }

    /// The cached rows.
    pub closed spec fn rows_spec(&self) -> Seq<Row> {
        self.rows@
    }

    /// The first row of each chunk.
    pub closed spec fn starts_spec(&self) -> Seq<usize> {
        self.chunk_starts@
    }

    /// The largest line number of the rows.
    pub closed spec fn max_no_spec(&self) -> usize {
        self.max_no
    }

    /// Whether the cache holds the layout of `merge`.
    pub open spec fn holds(&self, merge: FileMerge, folded: bool) -> bool {
        &&& rows_view(self.rows_spec()) == file_rows(merge.chunks@, merge.states@, merge.chunks@.len() as int, folded)
        &&& self.starts_spec().len() == merge.chunks@.len()
        &&& forall|j: int|
            0 <= j < self.starts_spec().len() ==> #[trigger] self.starts_spec()[j] == file_rows(
                merge.chunks@,
                merge.states@,
                j,
                folded,
            ).len()
        &&& self.max_no_spec() == max_no_of(rows_view(self.rows_spec()))
    }

    /// The rows of file `file_idx` at revision `rev`, with the first row of
    /// each chunk and the largest line number: rebuilt from `merge` when
    /// the key changed, else the ones kept.
    pub fn get(&mut self, file_idx: usize, merge: &FileMerge, rev: u64, folded: bool) -> (r: (&[Row], &[usize], usize))
        requires
            merge.wf(),
            numbers_fit(*merge),
        ensures
            final(self).key_spec() == Some((file_idx, rev, folded)),
            old(self).key_spec() == Some((file_idx, rev, folded)) ==> *final(self) == *old(self),
            old(self).key_spec() != Some((file_idx, rev, folded)) ==> final(self).holds(*merge, folded),
            r.0@ == final(self).rows_spec(),
            r.1@ == final(self).starts_spec(),
            r.2 == final(self).max_no_spec(),
    {
        let key = (file_idx, rev, folded);
        let hit = match self.key {
            Some(k) => k.0 == file_idx && k.1 == rev && k.2 == folded,
            None => false,
        };
        if !hit {
            let (rows, starts) = build_rows(merge, folded);
            self.max_no = max_line_no(&rows);
            self.rows = rows;
            self.chunk_starts = starts;
            self.key = Some(key);
        }
        (self.rows.as_slice(), self.chunk_starts.as_slice(), self.max_no)
    }
}

impl Default for RowCache {
    /// An empty cache: the first `get` builds.
    fn default() -> (c: RowCache)
        ensures
            c.key_spec() is None,
    {
        RowCache { key: None, rows: Vec::new(), chunk_starts: Vec::new(), max_no: 1 }
    }
}

} // verus!
