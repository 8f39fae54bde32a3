//! Three-way merge core: diff3-style chunking built on two line diffs.
//!
//! The line diffs base→ours and base→theirs come from `similar`. Every
//! non-equal diff op becomes a hunk (a base line range plus its replacement
//! lines); hunks of both sides are merged in base order and grouped by
//! collisions between their base ranges. A group touched by one side only
//! applies cleanly, identical changes from both sides agree, and everything
//! else is a conflict left to the user. Conflict-marked files are parsed into
//! the same chunk model.

use std::time::Duration;

use similar::{Algorithm, DiffTag, TextDiff};
use vstd::prelude::*;

use crate::text::{lines_state, str_lines, str_lines_of, string_of, string_of_range, trim_end_cr_bound, trim_bounds, trim_end_cr, trim_ws, append_lines, copy_all_lines, copy_lines, lemma_strings_view, lines_equal, strings_view, trim_end_eol, trim_end_eol_string};

verus! {

/// Longest time one line diff may take, in milliseconds; past it the diff
/// falls back to a coarser result so huge files still open promptly.
pub const DIFF_TIMEOUT_MS: u64 = 500;

/// Kind of a merge chunk.
#[derive(Debug, Clone, Copy, PartialEq, Eq, Structural)]
pub enum ChunkKind {
    /// Neither side changed the lines; content equals base
    Stable,
    /// Only the local side (ours) changed them
    Ours,
    /// Only the remote side (theirs) changed them
    Theirs,
    /// Both sides changed them in the same way
    Agree,
    /// Both sides changed them differently
    Conflict,
}

/// One merge chunk: a contiguous base range and both sides' lines there.
#[derive(Debug, Clone)]
pub struct MergeChunk {
    /// Position of the chunk in its file
    pub id: usize,
    /// Kind of the chunk
    pub kind: ChunkKind,
    /// Base lines of the range (line endings removed)
    pub base: Vec<String>,
    /// Local lines of the range (equal to base when unchanged)
    pub ours: Vec<String>,
    /// Remote lines of the range (equal to base when unchanged)
    pub theirs: Vec<String>,
    /// First base line number (1-based)
    pub base_start: usize,
    /// First local line number (1-based)
    pub ours_start: usize,
    /// First remote line number (1-based)
    pub theirs_start: usize,
}

/// Mathematical view of a chunk.
pub struct ChunkView {
    pub id: int,
    pub kind: ChunkKind,
    pub base: Seq<Seq<char>>,
    pub ours: Seq<Seq<char>>,
    pub theirs: Seq<Seq<char>>,
    pub base_start: int,
    pub ours_start: int,
    pub theirs_start: int,
}

impl View for MergeChunk {
    type V = ChunkView;

    open spec fn view(&self) -> ChunkView {
        ChunkView {
            id: self.id as int,
            kind: self.kind,
            base: strings_view(self.base@),
            ours: strings_view(self.ours@),
            theirs: strings_view(self.theirs@),
            base_start: self.base_start as int,
            ours_start: self.ours_start as int,
            theirs_start: self.theirs_start as int,
        }
    }
}

/// Views of a sequence of chunks.
pub open spec fn chunks_view(v: Seq<MergeChunk>) -> Seq<ChunkView> {
    v.map_values(|c: MergeChunk| c@)
}

/// The full result of a three-way merge: the chunks in file order and counts.
#[derive(Debug, Clone)]
pub struct MergeResult {
    /// All chunks; together they cover the whole file
    pub chunks: Vec<MergeChunk>,
    /// Number of conflict chunks
    pub conflicts: usize,
    /// Number of chunks changed by the local side only
    pub ours_changes: usize,
    /// Number of chunks changed by the remote side only
    pub theirs_changes: usize,
    /// Number of chunks both sides changed identically
    pub agree: usize,
    /// Local label (after `<<<<<<<`; None in three-way mode)
    pub ours_label: Option<String>,
    /// Remote label (after `>>>>>>>`; None in three-way mode)
    pub theirs_label: Option<String>,
}

/// Mathematical view of a merge result.
pub struct ResultView {
    pub chunks: Seq<ChunkView>,
    pub conflicts: int,
    pub ours_changes: int,
    pub theirs_changes: int,
    pub agree: int,
    pub ours_label: Option<Seq<char>>,
    pub theirs_label: Option<Seq<char>>,
}

/// View of an optional string.
pub open spec fn opt_view(o: Option<String>) -> Option<Seq<char>> {
    match o {
        Some(s) => Some(s@),
        None => None,
    }
}

impl View for MergeResult {
    type V = ResultView;

    open spec fn view(&self) -> ResultView {
        ResultView {
            chunks: chunks_view(self.chunks@),
            conflicts: self.conflicts as int,
            ours_changes: self.ours_changes as int,
            theirs_changes: self.theirs_changes as int,
            agree: self.agree as int,
            ours_label: opt_view(self.ours_label),
            theirs_label: opt_view(self.theirs_label),
        }
    }
}

// ---------------------------------------------------------------------------
// Line diffs
// ---------------------------------------------------------------------------

/// One op of a line diff: `old[old_start..old_end]` became
/// `new[new_start..new_end]`; `equal` when the two ranges hold equal lines.
#[derive(Debug, Clone, Copy)]
pub struct LineOp {
    pub equal: bool,
    pub old_start: usize,
    pub old_end: usize,
    pub new_start: usize,
    pub new_end: usize,
}

/// A line diff: both texts split into lines (with their line endings) and the ops.
#[derive(Debug)]
pub struct LineDiff {
    pub old_lines: Vec<String>,
    pub new_lines: Vec<String>,
    pub ops: Vec<LineOp>,
}

/// Index just past the end of the line starting at 0, scanning from `i`:
/// a line ends after `"\n"`, after `"\r\n"`, or after a `'\r'` not followed by `'\n'`.
pub open spec fn line_end(s: Seq<char>, i: int) -> int
    decreases s.len() - i,
{
    if i < 0 || i >= s.len() {
        s.len() as int
    } else if s[i] == '\n' {
        i + 1
    } else if s[i] == '\r' {
        if i + 1 < s.len() && s[i + 1] == '\n' {
            i + 2
        } else {
            i + 1
        }
    } else {
        line_end(s, i + 1)
    }
}

pub proof fn lemma_line_end_bounds(s: Seq<char>, i: int)
    requires
        0 <= i < s.len(),
    ensures
        i < line_end(s, i) <= s.len(),
    decreases s.len() - i,
{
    if s[i] != '\n' && s[i] != '\r' {
        if i + 1 < s.len() {
            lemma_line_end_bounds(s, i + 1);
        } else {
            assert(line_end(s, i + 1) == s.len());
        }
    }
}

/// The lines of `s` with their line endings kept, as a line diff splits them.
pub open spec fn split_lines(s: Seq<char>) -> Seq<Seq<char>>
    decreases s.len(),
{
    if s.len() == 0 {
        Seq::empty()
    } else {
        let k = line_end(s, 0);
        proof {
            lemma_line_end_bounds(s, 0);
        }
        seq![s.take(k)] + split_lines(s.skip(k))
    }
}

/// The ops cover both line sequences contiguously and in order.
pub open spec fn ops_cover(ops: Seq<LineOp>, old_len: int, new_len: int) -> bool {
    &&& ops.len() == 0 ==> old_len == 0 && new_len == 0
    &&& ops.len() > 0 ==> {
        &&& ops[0].old_start == 0
        &&& ops[0].new_start == 0
        &&& ops.last().old_end == old_len
        &&& ops.last().new_end == new_len
    }
    &&& forall|k: int|
        0 <= k < ops.len() ==> #[trigger] ops[k].old_start <= ops[k].old_end && ops[k].new_start
            <= ops[k].new_end
    &&& forall|k: int|
        0 <= k < ops.len() - 1 ==> #[trigger] ops[k + 1].old_start == ops[k].old_end && ops[k
            + 1].new_start == ops[k].new_end
}

/// Equal ops relate ranges of the same length holding the same lines.
pub open spec fn equal_ops_match(ops: Seq<LineOp>, old: Seq<Seq<char>>, new: Seq<Seq<char>>) -> bool {
    forall|k: int|
        0 <= k < ops.len() && #[trigger] ops[k].equal ==> {
            &&& ops[k].old_end - ops[k].old_start == ops[k].new_end - ops[k].new_start
            &&& forall|j: int|
                0 <= j < ops[k].old_end - ops[k].old_start ==> #[trigger] old[ops[k].old_start
                    + j] == new[ops[k].new_start + j]
        }
}

/// What every line diff of `old` and `new` satisfies.
pub open spec fn line_diff_wf(d: LineDiff, old: Seq<char>, new: Seq<char>) -> bool {
    &&& strings_view(d.old_lines@) == split_lines(old)
    &&& strings_view(d.new_lines@) == split_lines(new)
    &&& ops_cover(d.ops@, d.old_lines@.len() as int, d.new_lines@.len() as int)
    &&& equal_ops_match(d.ops@, strings_view(d.old_lines@), strings_view(d.new_lines@))
}

/// Line diff of `old` and `new` by `similar` (Myers, with a timeout).
///
/// Calls `TextDiff::configure().algorithm(Myers).timeout(..).diff_lines(old, new)`
/// and reads back `old_slices`, `new_slices` and `ops`. The contract claims that
/// the slices are `similar`'s line tokenization (lines keep their endings) and
/// that the ops cover both line sequences contiguously, equal ops relating
/// equal lines. Which ops come back is left open: past the timeout `similar`
/// approximates, so the ops depend on the time the diff took.
#[verifier::external_body]
fn diff_lines(old: &str, new: &str, timeout_ms: u64) -> (d: LineDiff)
    ensures
        line_diff_wf(d, old@, new@),
{
    let diff = TextDiff::configure().algorithm(Algorithm::Myers).timeout(
        Duration::from_millis(timeout_ms),
    ).diff_lines(old, new);
    let ops = diff.ops().iter().map(
        |op| LineOp {
            equal: op.tag() == DiffTag::Equal,
            old_start: op.old_range().start,
            old_end: op.old_range().end,
            new_start: op.new_range().start,
            new_end: op.new_range().end,
        },
    ).collect();
    let old_lines = diff.old_slices().iter().map(|s| s.to_string()).collect();
    let new_lines = diff.new_slices().iter().map(|s| s.to_string()).collect();
    LineDiff { old_lines, new_lines, ops }
}


/// Line numbers and lengths along a covering op sequence.
pub proof fn lemma_ops_bounds(ops: Seq<LineOp>, old_len: int, new_len: int)
    requires
        ops_cover(ops, old_len, new_len),
    ensures
        forall|k: int|
            0 <= k < ops.len() ==> 0 <= #[trigger] ops[k].old_start <= ops[k].old_end <= old_len
                && 0 <= ops[k].new_start <= ops[k].new_end <= new_len,
        forall|k: int, l: int|
            0 <= k < l < ops.len() ==> #[trigger] ops[k].old_end <= #[trigger] ops[l].old_start
                && ops[k].new_end <= ops[l].new_start,
{
    assert forall|k: int| 0 <= k < ops.len() implies 0 <= #[trigger] ops[k].old_start
        <= ops[k].old_end <= old_len && 0 <= ops[k].new_start <= ops[k].new_end <= new_len by {
        lemma_ops_low(ops, old_len, new_len, k);
        lemma_ops_high(ops, old_len, new_len, k);
    }
    assert forall|k: int, l: int| 0 <= k < l < ops.len() implies #[trigger] ops[k].old_end
        <= #[trigger] ops[l].old_start && ops[k].new_end <= ops[l].new_start by {
        lemma_ops_order(ops, old_len, new_len, k, l);
    }
}

proof fn lemma_ops_low(ops: Seq<LineOp>, old_len: int, new_len: int, k: int)
    requires
        ops_cover(ops, old_len, new_len),
        0 <= k < ops.len(),
    ensures
        0 <= ops[k].old_start,
        0 <= ops[k].new_start,
    decreases k,
{
    if k > 0 {
        lemma_ops_low(ops, old_len, new_len, k - 1);
        assert(ops[k - 1].old_start <= ops[k - 1].old_end);
        assert(ops[(k - 1) + 1].old_start == ops[k - 1].old_end);
    }
}

proof fn lemma_ops_high(ops: Seq<LineOp>, old_len: int, new_len: int, k: int)
    requires
        ops_cover(ops, old_len, new_len),
        0 <= k < ops.len(),
    ensures
        ops[k].old_end <= old_len,
        ops[k].new_end <= new_len,
    decreases ops.len() - k,
{
    if k < ops.len() - 1 {
        lemma_ops_high(ops, old_len, new_len, k + 1);
        assert(ops[k + 1].old_start <= ops[k + 1].old_end);
    }
}

proof fn lemma_ops_order(ops: Seq<LineOp>, old_len: int, new_len: int, k: int, l: int)
    requires
        ops_cover(ops, old_len, new_len),
        0 <= k < l < ops.len(),
    ensures
        ops[k].old_end <= ops[l].old_start,
        ops[k].new_end <= ops[l].new_start,
    decreases l - k,
{
    assert(ops[(l - 1) + 1].old_start == ops[l - 1].old_end);
    if k < l - 1 {
        lemma_ops_order(ops, old_len, new_len, k, l - 1);
        assert(ops[l - 1].old_start <= ops[l - 1].old_end);
    }
}

// ---------------------------------------------------------------------------
// Hunks
// ---------------------------------------------------------------------------

/// A hunk: base lines `[start, end)` replaced by `lines` on one side.
pub struct HunkView {
    pub start: int,
    pub end: int,
    pub lines: Seq<Seq<char>>,
    pub theirs: bool,
}

/// Executable hunk (line endings already removed from `lines`).
pub struct Hunk {
    pub start: usize,
    pub end: usize,
    pub lines: Vec<String>,
    pub theirs: bool,
}

impl View for Hunk {
    type V = HunkView;

    open spec fn view(&self) -> HunkView {
        HunkView {
            start: self.start as int,
            end: self.end as int,
            lines: strings_view(self.lines@),
            theirs: self.theirs,
        }
    }
}

/// Views of a sequence of hunks.
pub open spec fn hunks_view(v: Seq<Hunk>) -> Seq<HunkView> {
    v.map_values(|h: Hunk| h@)
}

pub broadcast proof fn lemma_hunks_view(v: Seq<Hunk>)
    ensures
        #[trigger] hunks_view(v).len() == v.len(),
        forall|k: int| 0 <= k < v.len() ==> #[trigger] hunks_view(v)[k] == v[k]@,
{
}

/// Lines with their line endings removed.
pub open spec fn clean_all(lines: Seq<Seq<char>>) -> Seq<Seq<char>> {
    lines.map_values(|l: Seq<char>| trim_end_eol(l))
}

/// The hunks of a line diff: one per non-equal op, in op order.
pub open spec fn op_hunks(ops: Seq<LineOp>, new: Seq<Seq<char>>, theirs: bool) -> Seq<HunkView>
    decreases ops.len(),
{
    if ops.len() == 0 {
        Seq::empty()
    } else {
        let prev = op_hunks(ops.drop_last(), new, theirs);
        let op = ops.last();
        if op.equal {
            prev
        } else {
            prev.push(
                HunkView {
                    start: op.old_start as int,
                    end: op.old_end as int,
                    lines: clean_all(new.subrange(op.new_start as int, op.new_end as int)),
                    theirs,
                },
            )
        }
    }
}

/// `lines[lo..hi]` with line endings removed.
fn clean_range(lines: &Vec<String>, lo: usize, hi: usize) -> (out: Vec<String>)
    requires
        lo <= hi <= lines@.len(),
    ensures
        strings_view(out@) == clean_all(strings_view(lines@).subrange(lo as int, hi as int)),
{
    let mut out: Vec<String> = Vec::new();
    let mut i = lo;
    while i < hi
        invariant
            lo <= i <= hi <= lines@.len(),
            strings_view(out@) == clean_all(strings_view(lines@).subrange(lo as int, i as int)),
        decreases hi - i,
    {
        let ghost before = out@;
        let s = trim_end_eol_string(&lines[i]);
        out.push(s);
        proof {
            broadcast use lemma_strings_view;

            let want = clean_all(strings_view(lines@).subrange(lo as int, i + 1));
            assert(strings_view(before).len() == before.len());
            assert forall|k: int| 0 <= k < out@.len() implies strings_view(out@)[k] == want[k] by {
                if k < before.len() {
                    assert(strings_view(before)[k] == clean_all(
                        strings_view(lines@).subrange(lo as int, i as int),
                    )[k]);
                }
            }
            assert(strings_view(out@) =~= want);
        }
        i = i + 1;
    }
    out
}

/// Every non-equal op of `d` as a hunk of one side.
fn extract_hunks(d: &LineDiff, theirs: bool) -> (hunks: Vec<Hunk>)
    requires
        ops_cover(d.ops@, d.old_lines@.len() as int, d.new_lines@.len() as int),
    ensures
        hunks_view(hunks@) == op_hunks(d.ops@, strings_view(d.new_lines@), theirs),
{
    proof {
        lemma_ops_bounds(d.ops@, d.old_lines@.len() as int, d.new_lines@.len() as int);
    }
    let mut hunks: Vec<Hunk> = Vec::new();
    let mut i: usize = 0;
    while i < d.ops.len()
        invariant
            0 <= i <= d.ops@.len(),
            forall|k: int|
                0 <= k < d.ops@.len() ==> 0 <= #[trigger] d.ops@[k].old_start
                    <= d.ops@[k].old_end <= d.old_lines@.len() && 0 <= d.ops@[k].new_start
                    <= d.ops@[k].new_end <= d.new_lines@.len(),
            hunks_view(hunks@) == op_hunks(
                d.ops@.take(i as int),
                strings_view(d.new_lines@),
                theirs,
            ),
        decreases d.ops@.len() - i,
    {
        let op = d.ops[i];
        assert(d.ops@.take(i + 1).drop_last() =~= d.ops@.take(i as int));
        assert(d.ops@.take(i + 1).last() == op);
        if !op.equal {
            let lines = clean_range(&d.new_lines, op.new_start, op.new_end);
            let ghost before = hunks@;
            hunks.push(Hunk { start: op.old_start, end: op.old_end, lines, theirs });
            proof {
                broadcast use lemma_hunks_view;

                assert(hunks_view(before).len() == before.len());
                assert(hunks_view(hunks@) =~= hunks_view(before).push(hunks@.last()@));
            }
        }
        i = i + 1;
    }
    assert(d.ops@.take(d.ops@.len() as int) =~= d.ops@);
    hunks
}


/// Base order of hunks: by start, then end; local before remote on ties.
pub open spec fn key_le(a: HunkView, b: HunkView) -> bool {
    ||| a.start < b.start
    ||| a.start == b.start && a.end < b.end
    ||| a.start == b.start && a.end == b.end && (!a.theirs || b.theirs)
}

/// The hunks of both sides in base order (a merge of two ordered lists).
pub open spec fn merge_sorted(a: Seq<HunkView>, b: Seq<HunkView>) -> Seq<HunkView>
    decreases a.len() + b.len(),
{
    if a.len() == 0 {
        b
    } else if b.len() == 0 {
        a
    } else if key_le(a[0], b[0]) {
        seq![a[0]] + merge_sorted(a.drop_first(), b)
    } else {
        seq![b[0]] + merge_sorted(a, b.drop_first())
    }
}

/// A copy of a hunk.
fn copy_hunk(h: &Hunk) -> (out: Hunk)
    ensures
        out@ == h@,
{
    let lines = copy_all_lines(&h.lines);
    Hunk { start: h.start, end: h.end, lines, theirs: h.theirs }
}

/// Whether `a` comes before `b` in base order.
fn hunk_key_le(a: &Hunk, b: &Hunk) -> (r: bool)
    ensures
        r == key_le(a@, b@),
{
    a.start < b.start || (a.start == b.start && a.end < b.end) || (a.start == b.start && a.end
        == b.end && (!a.theirs || b.theirs))
}

/// Merges the hunks of both sides into base order.
fn merge_hunks(ours: &Vec<Hunk>, theirs: &Vec<Hunk>) -> (all: Vec<Hunk>)
    ensures
        hunks_view(all@) == merge_sorted(hunks_view(ours@), hunks_view(theirs@)),
{
    broadcast use lemma_hunks_view;

    let ghost a = hunks_view(ours@);
    let ghost b = hunks_view(theirs@);
    let mut all: Vec<Hunk> = Vec::new();
    let mut i: usize = 0;
    let mut j: usize = 0;
    assert(a.skip(0) =~= a);
    assert(b.skip(0) =~= b);
    while i < ours.len() || j < theirs.len()
        invariant
            0 <= i <= ours@.len(),
            0 <= j <= theirs@.len(),
            a == hunks_view(ours@),
            b == hunks_view(theirs@),
            hunks_view(all@) + merge_sorted(a.skip(i as int), b.skip(j as int)) == merge_sorted(
                a,
                b,
            ),
        decreases ours@.len() + theirs@.len() - i - j,
    {
        let ghost before = hunks_view(all@);
        let ghost rest = merge_sorted(a.skip(i as int), b.skip(j as int));
        proof {
            if i < ours@.len() {
                assert(a.skip(i as int).drop_first() =~= a.skip(i + 1));
            }
            if j < theirs@.len() {
                assert(b.skip(j as int).drop_first() =~= b.skip(j + 1));
            }
        }
        let take_ours = if i == ours.len() {
            false
        } else if j == theirs.len() {
            true
        } else {
            hunk_key_le(&ours[i], &theirs[j])
        };
        if take_ours {
            let h = copy_hunk(&ours[i]);
            all.push(h);
            proof {
                if j == theirs@.len() {
                    assert(b.skip(j as int).len() == 0);
                    assert(rest == a.skip(i as int));
                    assert(a.skip(i as int) =~= seq![a[i as int]] + a.skip(i + 1));
                    assert(b.skip(j as int) =~= Seq::<HunkView>::empty());
                    assert(merge_sorted(a.skip(i + 1), b.skip(j as int)) == a.skip(i + 1));
                }
                assert(hunks_view(all@) =~= before.push(a[i as int]));
                assert(rest =~= seq![a[i as int]] + merge_sorted(a.skip(i + 1), b.skip(j as int)));
                assert(hunks_view(all@) + merge_sorted(a.skip(i + 1), b.skip(j as int))
                    =~= before + rest);
            }
            i = i + 1;
        } else {
            let h = copy_hunk(&theirs[j]);
            all.push(h);
            proof {
                if i == ours@.len() {
                    assert(a.skip(i as int).len() == 0);
                    assert(rest == b.skip(j as int));
                    assert(b.skip(j as int) =~= seq![b[j as int]] + b.skip(j + 1));
                    assert(merge_sorted(a.skip(i as int), b.skip(j + 1)) == b.skip(j + 1));
                }
                assert(hunks_view(all@) =~= before.push(b[j as int]));
                assert(rest =~= seq![b[j as int]] + merge_sorted(a.skip(i as int), b.skip(j + 1)));
                assert(hunks_view(all@) + merge_sorted(a.skip(i as int), b.skip(j + 1))
                    =~= before + rest);
            }
            j = j + 1;
        }
    }
    proof {
        assert(a.skip(i as int).len() == 0);
        assert(b.skip(j as int).len() == 0);
        assert(merge_sorted(a.skip(i as int), b.skip(j as int)) == b.skip(j as int));
        assert(hunks_view(all@) =~= hunks_view(all@) + merge_sorted(a.skip(i as int), b.skip(j as int)));
    }
    all
}


/// Whether two base ranges collide and belong in one group.
///
/// Conservative: an empty range (a pure insertion) touching the other range
/// at an end point collides, so reporting one conflict too many is preferred
/// over silently merging something wrong; two non-empty ranges that only
/// touch at an end point do not collide.
pub open spec fn collides(a_lo: int, a_hi: int, b_lo: int, b_hi: int) -> bool {
    if a_lo >= a_hi && b_lo >= b_hi {
        a_lo == b_lo
    } else if a_lo >= a_hi {
        b_lo <= a_lo && a_lo <= b_hi
    } else if b_lo >= b_hi {
        a_lo <= b_lo && b_lo <= a_hi
    } else {
        (if a_lo >= b_lo { a_lo } else { b_lo }) < (if a_hi <= b_hi { a_hi } else { b_hi })
    }
}

/// Executable form of `collides`.
fn ranges_collide(a_lo: usize, a_hi: usize, b_lo: usize, b_hi: usize) -> (r: bool)
    ensures
        r == collides(a_lo as int, a_hi as int, b_lo as int, b_hi as int),
{
    let a_empty = a_lo >= a_hi;
    let b_empty = b_lo >= b_hi;
    if a_empty && b_empty {
        a_lo == b_lo
    } else if a_empty {
        b_lo <= a_lo && a_lo <= b_hi
    } else if b_empty {
        a_lo <= b_lo && b_lo <= a_hi
    } else {
        let lo = if a_lo >= b_lo { a_lo } else { b_lo };
        let hi = if a_hi <= b_hi { a_hi } else { b_hi };
        lo < hi
    }
}

/// A group of colliding hunks and the base range `[lo, hi)` they span.
pub struct GroupView {
    pub lo: int,
    pub hi: int,
    pub members: Seq<HunkView>,
}

/// Executable group.
pub struct Group {
    pub lo: usize,
    pub hi: usize,
    pub members: Vec<Hunk>,
}

impl View for Group {
    type V = GroupView;

    open spec fn view(&self) -> GroupView {
        GroupView { lo: self.lo as int, hi: self.hi as int, members: hunks_view(self.members@) }
    }
}

/// Views of a sequence of groups.
pub open spec fn groups_view(v: Seq<Group>) -> Seq<GroupView> {
    v.map_values(|g: Group| g@)
}

pub broadcast proof fn lemma_groups_view(v: Seq<Group>)
    ensures
        #[trigger] groups_view(v).len() == v.len(),
        forall|k: int| 0 <= k < v.len() ==> #[trigger] groups_view(v)[k] == v[k]@,
{
}

/// Groups of hunks given in base order: each hunk joins the last group when
/// it collides with the group's range (widening it), else opens a new group.
pub open spec fn group_hunks_spec(s: Seq<HunkView>) -> Seq<GroupView>
    decreases s.len(),
{
    if s.len() == 0 {
        Seq::empty()
    } else {
        let g = group_hunks_spec(s.drop_last());
        let h = s.last();
        if g.len() > 0 && collides(g.last().lo, g.last().hi, h.start, h.end) {
            let last = g.last();
            g.update(
                g.len() - 1,
                GroupView {
                    lo: if last.lo <= h.start { last.lo } else { h.start },
                    hi: if last.hi >= h.end { last.hi } else { h.end },
                    members: last.members.push(h),
                },
            )
        } else {
            g.push(GroupView { lo: h.start, hi: h.end, members: seq![h] })
        }
    }
}

/// How a hunk, read in base order, joins the group before it. A pure
/// insertion joins when it falls anywhere within the group's base range,
/// either end included; a changed range joins a group of insertions that
/// falls within it, ends included; two changed ranges join when they share a
/// line. Two changed ranges that only touch, and an insertion outside the
/// group's range, open a group of their own.
pub proof fn law_group_joining(s: Seq<HunkView>)
    requires
        s.len() > 0,
        group_hunks_spec(s.drop_last()).len() > 0,
    ensures
        ({
            let before = group_hunks_spec(s.drop_last());
            let g = before.last();
            let h = s.last();
            let after = group_hunks_spec(s);
            let joined = after.len() == before.len() && after.last().members == g.members.push(h);
            let apart = after.len() == before.len() + 1 && after.last().members == seq![h];
            &&& h.start == h.end && g.lo <= h.start && h.start <= g.hi ==> joined
            &&& g.lo == g.hi && h.start < h.end && h.start <= g.lo && g.lo <= h.end ==> joined
            &&& g.lo < g.hi && h.start < h.end && h.start < g.hi && g.lo < h.end ==> joined
            &&& g.lo < g.hi && h.start < h.end && (g.hi <= h.start || h.end <= g.lo) ==> apart
            &&& g.lo <= g.hi && h.start == h.end && (h.start < g.lo || g.hi < h.start) ==> apart
        }),
{
}

/// Groups hunks given in base order by collisions of their base ranges.
fn group_hunks(all: Vec<Hunk>) -> (groups: Vec<Group>)
    ensures
        groups_view(groups@) == group_hunks_spec(hunks_view(all@)),
{
    broadcast use lemma_hunks_view, lemma_groups_view;

    let ghost s = hunks_view(all@);
    let total = all.len();
    assert(hunks_view(all@).len() == all@.len());
    assert(s.len() <= usize::MAX);
    let mut groups: Vec<Group> = Vec::new();
    let mut rest = all;
    let mut pending: Vec<Hunk> = Vec::new();
    // Hunks are taken from the back of `rest` after reversing into `pending`.
    while rest.len() > 0
        invariant
            hunks_view(rest@) + hunks_view(pending@).reverse() == s,
        decreases rest@.len(),
    {
        let ghost r0 = hunks_view(rest@);
        let ghost p0 = hunks_view(pending@);
        let h = rest.pop().unwrap();
        pending.push(h);
        proof {
            assert(hunks_view(rest@) =~= r0.drop_last());
            assert(hunks_view(pending@) =~= p0.push(r0.last()));
            assert(hunks_view(pending@).reverse() =~= seq![r0.last()] + p0.reverse());
            assert(hunks_view(rest@) + hunks_view(pending@).reverse() =~= r0 + p0.reverse());
        }
    }
    assert(hunks_view(pending@).reverse() =~= s);
    assert(hunks_view(pending@).len() == pending@.len());
    let ghost n = s.len();
    assert(s.skip(0) =~= s);
    let mut done: usize = 0;
    while pending.len() > 0
        invariant
            hunks_view(pending@).reverse() == s.skip(done as int),
            pending@.len() + done == n,
            n == s.len(),
            n <= usize::MAX,
            groups_view(groups@) == group_hunks_spec(s.take(done as int)),
        decreases pending@.len(),
    {
        let ghost p0 = hunks_view(pending@);
        let h = pending.pop().unwrap();
        proof {
            assert(p0.len() == pending@.len() + 1);
            assert(p0.reverse()[0] == p0.last());
            assert(s.skip(done as int)[0] == s[done as int]);
            assert(h@ == s[done as int]);
            assert(hunks_view(pending@) =~= p0.drop_last());
            assert(p0.drop_last().reverse() =~= p0.reverse().drop_first());
            assert(s.skip(done as int).drop_first() =~= s.skip(done + 1));
            assert(hunks_view(pending@).reverse() =~= s.skip(done + 1));
            assert(s.take(done + 1).drop_last() =~= s.take(done as int));
            assert(s.take(done + 1).last() == h@);
        }
        let ghost g0 = groups_view(groups@);
        let n_groups = groups.len();
        let joins = if n_groups > 0 {
            ranges_collide(groups[n_groups - 1].lo, groups[n_groups - 1].hi, h.start, h.end)
        } else {
            false
        };
        if joins {
            let mut last = groups.pop().unwrap();
            if h.start < last.lo {
                last.lo = h.start;
            }
            if h.end > last.hi {
                last.hi = h.end;
            }
            let ghost m0 = hunks_view(last.members@);
            last.members.push(h);
            proof {
                assert(hunks_view(last.members@) =~= m0.push(s[done as int]));
            }
            groups.push(last);
            proof {
                assert(groups_view(groups@) =~= g0.update(g0.len() - 1, groups@.last()@));
            }
        } else {
            let start = h.start;
            let end = h.end;
            let mut members: Vec<Hunk> = Vec::new();
            members.push(h);
            proof {
                assert(hunks_view(members@) =~= seq![s[done as int]]);
            }
            groups.push(Group { lo: start, hi: end, members });
            proof {
                assert(groups_view(groups@) =~= g0.push(groups@.last()@));
            }
        }
        done = done + 1;
    }
    assert(s.take(n as int) =~= s);
    groups
}


/// The hunk's base range lies inside `[0, base_len]`.
pub open spec fn range_ok(h: HunkView, base_len: int) -> bool {
    0 <= h.start <= h.end <= base_len
}

/// A group's members lie inside its range, and hunks of one side inside it
/// are in order without overlap.
pub open spec fn group_wf(g: GroupView, base_len: int) -> bool {
    &&& 0 <= g.lo <= g.hi <= base_len
    &&& forall|k: int|
        0 <= k < g.members.len() ==> g.lo <= #[trigger] g.members[k].start <= g.members[k].end
            <= g.hi
    &&& forall|k: int, l: int|
        0 <= k < l < g.members.len() && #[trigger] g.members[k].theirs
            == #[trigger] g.members[l].theirs ==> g.members[k].end <= g.members[l].start
}

/// Groups are well formed and in base order without overlap.
pub open spec fn groups_wf(gs: Seq<GroupView>, base_len: int) -> bool {
    &&& forall|i: int| 0 <= i < gs.len() ==> group_wf(#[trigger] gs[i], base_len)
    &&& forall|i: int, j: int| 0 <= i < j < gs.len() ==> #[trigger] gs[i].hi <= #[trigger] gs[j].lo
}

/// Number of replacement lines in the hunks of one side.
pub open spec fn lines_total(s: Seq<HunkView>, theirs: bool) -> int
    decreases s.len(),
{
    if s.len() == 0 {
        0
    } else {
        lines_total(s.drop_last(), theirs) + if s.last().theirs == theirs {
            s.last().lines.len() as int
        } else {
            0
        }
    }
}

/// Number of replacement lines of one side over all groups.
pub open spec fn groups_lines(gs: Seq<GroupView>, theirs: bool) -> int
    decreases gs.len(),
{
    if gs.len() == 0 {
        0
    } else {
        groups_lines(gs.drop_last(), theirs) + lines_total(gs.last().members, theirs)
    }
}

pub proof fn lemma_lines_total_nonneg(s: Seq<HunkView>, theirs: bool)
    ensures
        lines_total(s, theirs) >= 0,
    decreases s.len(),
{
    if s.len() > 0 {
        lemma_lines_total_nonneg(s.drop_last(), theirs);
    }
}

/// One side's lines over a group, scanning the members: the lines produced
/// so far and the base position reached.
pub open spec fn side_state(base: Seq<Seq<char>>, lo: int, members: Seq<HunkView>, theirs: bool) -> (
    Seq<Seq<char>>,
    int,
)
    decreases members.len(),
{
    if members.len() == 0 {
        (Seq::empty(), lo)
    } else {
        let (out, pos) = side_state(base, lo, members.drop_last(), theirs);
        let m = members.last();
        if m.theirs == theirs {
            (out + base.subrange(pos, m.start) + m.lines, m.end)
        } else {
            (out, pos)
        }
    }
}

/// One side's content over a group's base range: base lines that side left
/// alone, and its replacement lines where it has hunks.
pub open spec fn side_content_spec(base: Seq<Seq<char>>, g: GroupView, theirs: bool) -> Seq<
    Seq<char>,
> {
    let (out, pos) = side_state(base, g.lo, g.members, theirs);
    out + base.subrange(pos, g.hi)
}

/// One side's content over the base range of a group.
fn side_content(base: &Vec<String>, g: &Group, theirs: bool) -> (out: Vec<String>)
    requires
        group_wf(g@, base@.len() as int),
    ensures
        strings_view(out@) == side_content_spec(strings_view(base@), g@, theirs),
        out@.len() <= (g@.hi - g@.lo) + lines_total(g@.members, theirs),
{
    broadcast use lemma_hunks_view, lemma_strings_view;

    let ghost bv = strings_view(base@);
    let ghost ms = g@.members;
    let mut out: Vec<String> = Vec::new();
    let mut pos = g.lo;
    let mut i: usize = 0;
    assert(ms.take(0) =~= Seq::<HunkView>::empty());
    while i < g.members.len()
        invariant
            group_wf(g@, base@.len() as int),
            bv == strings_view(base@),
            ms == g@.members,
            0 <= i <= ms.len(),
            g.lo <= pos <= g.hi,
            (strings_view(out@), pos as int) == side_state(bv, g.lo as int, ms.take(i as int), theirs),
            forall|l: int| i <= l < ms.len() && #[trigger] ms[l].theirs == theirs ==> pos <= ms[l].start,
            out@.len() + (g.hi - pos) <= (g.hi - g.lo) + lines_total(ms.take(i as int), theirs),
        decreases ms.len() - i,
    {
        let m = &g.members[i];
        assert(ms.take(i + 1).drop_last() =~= ms.take(i as int));
        assert(ms.take(i + 1).last() == ms[i as int]);
        assert(ms[i as int] == m@);
        assert(g.lo <= ms[i as int].start <= ms[i as int].end <= g.hi);
        if m.theirs == theirs {
            assert(ms[i as int].theirs == theirs);
            assert(pos <= m.start);
            let ghost before = strings_view(out@);
            assert(strings_view(out@).len() == out@.len());
            let seg = copy_lines(base, pos, m.start);
            append_lines(&mut out, &seg);
            append_lines(&mut out, &m.lines);
            proof {
                assert(strings_view(m.lines@).len() == m.lines@.len());
                assert(strings_view(seg@).len() == seg@.len());
                assert(strings_view(out@).len() == out@.len());
                assert forall|l: int| i + 1 <= l < ms.len() && #[trigger] ms[l].theirs == theirs implies m.end <= ms[l].start by {
                    assert(ms[i as int].theirs == ms[l].theirs);
                }
            }
            pos = m.end;
        }
        i = i + 1;
    }
    assert(ms.take(ms.len() as int) =~= ms);
    let ghost before = strings_view(out@);
    let tail = copy_lines(base, pos, g.hi);
    append_lines(&mut out, &tail);
    proof {
        assert(strings_view(tail@).len() == tail@.len());
        assert(strings_view(out@).len() == out@.len());
    }
    out
}

/// Whether a group has a hunk of the given side.
pub open spec fn has_side(members: Seq<HunkView>, theirs: bool) -> bool {
    exists|k: int| 0 <= k < members.len() && #[trigger] members[k].theirs == theirs
}

fn group_has_side(g: &Group, theirs: bool) -> (r: bool)
    ensures
        r == has_side(g@.members, theirs),
{
    broadcast use lemma_hunks_view;

    let mut i: usize = 0;
    while i < g.members.len()
        invariant
            0 <= i <= g@.members.len(),
            forall|k: int| 0 <= k < i ==> g@.members[k].theirs != theirs,
        decreases g@.members.len() - i,
    {
        if g.members[i].theirs == theirs {
            assert(g@.members[i as int].theirs == theirs);
            return true;
        }
        i = i + 1;
    }
    false
}

/// Kind of a group's chunk: one-sided, agreeing, or conflicting.
pub open spec fn group_kind(g: GroupView, ours: Seq<Seq<char>>, theirs: Seq<Seq<char>>) -> ChunkKind {
    let has_ours = has_side(g.members, false);
    let has_theirs = has_side(g.members, true);
    if has_ours && !has_theirs {
        ChunkKind::Ours
    } else if !has_ours && has_theirs {
        ChunkKind::Theirs
    } else if ours == theirs {
        ChunkKind::Agree
    } else {
        ChunkKind::Conflict
    }
}

/// State of chunk building after some groups: chunks, base position reached,
/// the next line number of each side, and the counts.
pub struct BuildView {
    pub chunks: Seq<ChunkView>,
    pub pos: int,
    pub base_no: int,
    pub ours_no: int,
    pub theirs_no: int,
    pub conflicts: int,
    pub ours_changes: int,
    pub theirs_changes: int,
    pub agree: int,
}

/// Appends a stable chunk holding `lines` on all three sides.
pub open spec fn push_stable(st: BuildView, lines: Seq<Seq<char>>) -> BuildView {
    BuildView {
        chunks: st.chunks.push(
            ChunkView {
                id: st.chunks.len() as int,
                kind: ChunkKind::Stable,
                base: lines,
                ours: lines,
                theirs: lines,
                base_start: st.base_no,
                ours_start: st.ours_no,
                theirs_start: st.theirs_no,
            },
        ),
        base_no: st.base_no + lines.len(),
        ours_no: st.ours_no + lines.len(),
        theirs_no: st.theirs_no + lines.len(),
        ..st
    }
}

/// Adds one group: the stable lines before it, then its chunk.
pub open spec fn build_step(base: Seq<Seq<char>>, st: BuildView, g: GroupView) -> BuildView {
    let st1 = if g.lo > st.pos {
        push_stable(st, base.subrange(st.pos, g.lo))
    } else {
        st
    };
    let o = side_content_spec(base, g, false);
    let t = side_content_spec(base, g, true);
    let kind = group_kind(g, o, t);
    BuildView {
        chunks: st1.chunks.push(
            ChunkView {
                id: st1.chunks.len() as int,
                kind,
                base: base.subrange(g.lo, g.hi),
                ours: o,
                theirs: t,
                base_start: st1.base_no,
                ours_start: st1.ours_no,
                theirs_start: st1.theirs_no,
            },
        ),
        pos: g.hi,
        base_no: st1.base_no + (g.hi - g.lo),
        ours_no: st1.ours_no + o.len(),
        theirs_no: st1.theirs_no + t.len(),
        conflicts: st1.conflicts + if kind == ChunkKind::Conflict {
            1int
        } else {
            0
        },
        ours_changes: st1.ours_changes + if kind == ChunkKind::Ours {
            1int
        } else {
            0
        },
        theirs_changes: st1.theirs_changes + if kind == ChunkKind::Theirs {
            1int
        } else {
            0
        },
        agree: st1.agree + if kind == ChunkKind::Agree {
            1int
        } else {
            0
        },
    }
}

/// Chunk building state after the given groups.
pub open spec fn build_fold(base: Seq<Seq<char>>, gs: Seq<GroupView>) -> BuildView
    decreases gs.len(),
{
    if gs.len() == 0 {
        BuildView {
            chunks: Seq::empty(),
            pos: 0,
            base_no: 1,
            ours_no: 1,
            theirs_no: 1,
            conflicts: 0,
            ours_changes: 0,
            theirs_changes: 0,
            agree: 0,
        }
    } else {
        build_step(base, build_fold(base, gs.drop_last()), gs.last())
    }
}

/// The merge result of grouped hunks over `base`: chunks covering the file
/// end to end, the trailing stable lines last.
pub open spec fn build_result(base: Seq<Seq<char>>, gs: Seq<GroupView>) -> ResultView {
    let st = build_fold(base, gs);
    let last = if st.pos < base.len() {
        push_stable(st, base.subrange(st.pos, base.len() as int))
    } else {
        st
    };
    ResultView {
        chunks: last.chunks,
        conflicts: last.conflicts,
        ours_changes: last.ours_changes,
        theirs_changes: last.theirs_changes,
        agree: last.agree,
        ours_label: None,
        theirs_label: None,
    }
}


pub proof fn lemma_groups_lines_prefix(gs: Seq<GroupView>, i: int, theirs: bool)
    requires
        0 <= i <= gs.len(),
    ensures
        0 <= groups_lines(gs.take(i), theirs) <= groups_lines(gs, theirs),
    decreases gs.len(),
{
    if gs.len() > 0 {
        lemma_lines_total_nonneg(gs.last().members, theirs);
        if i == gs.len() {
            assert(gs.take(i) =~= gs);
            lemma_groups_lines_prefix(gs.drop_last(), i - 1, theirs);
            assert(gs.drop_last().take(i - 1) =~= gs.drop_last());
        } else {
            lemma_groups_lines_prefix(gs.drop_last(), i, theirs);
            assert(gs.drop_last().take(i) =~= gs.take(i));
        }
    } else {
        assert(gs.take(i) =~= gs);
    }
}

/// A stable chunk holding `lines` on all three sides.
fn stable_chunk(id: usize, lines: Vec<String>, base_no: usize, ours_no: usize, theirs_no: usize) -> (c: MergeChunk)
    ensures
        c@ == (ChunkView {
            id: id as int,
            kind: ChunkKind::Stable,
            base: strings_view(lines@),
            ours: strings_view(lines@),
            theirs: strings_view(lines@),
            base_start: base_no as int,
            ours_start: ours_no as int,
            theirs_start: theirs_no as int,
        }),
{
    let ours = copy_all_lines(&lines);
    let theirs = copy_all_lines(&lines);
    MergeChunk {
        id,
        kind: ChunkKind::Stable,
        base: lines,
        ours,
        theirs,
        base_start: base_no,
        ours_start: ours_no,
        theirs_start: theirs_no,
    }
}

/// Builds the chunk sequence of a file from its base lines and hunk groups,
/// counting chunks of each kind.
fn build_chunks(base: &Vec<String>, groups: &Vec<Group>) -> (r: MergeResult)
    requires
        groups_wf(groups_view(groups@), base@.len() as int),
        base@.len() + groups_lines(groups_view(groups@), false) + 1 <= usize::MAX,
        base@.len() + groups_lines(groups_view(groups@), true) + 1 <= usize::MAX,
    ensures
        r@ == build_result(strings_view(base@), groups_view(groups@)),
{
    broadcast use lemma_groups_view, lemma_strings_view;

    let ghost bv = strings_view(base@);
    let ghost gs = groups_view(groups@);
    let ghost blen = base@.len() as int;
    let mut chunks: Vec<MergeChunk> = Vec::new();
    let mut conflicts: usize = 0;
    let mut ours_changes: usize = 0;
    let mut theirs_changes: usize = 0;
    let mut agree: usize = 0;
    let mut base_pos: usize = 0;
    let mut base_no: usize = 1;
    let mut ours_no: usize = 1;
    let mut theirs_no: usize = 1;
    let mut i: usize = 0;
    assert(gs.take(0) =~= Seq::<GroupView>::empty());
    assert(chunks_view(chunks@) =~= Seq::<ChunkView>::empty());
    while i < groups.len()
        invariant
            bv == strings_view(base@),
            gs == groups_view(groups@),
            blen == base@.len(),
            groups_wf(gs, blen),
            blen + groups_lines(gs, false) + 1 <= usize::MAX,
            blen + groups_lines(gs, true) + 1 <= usize::MAX,
            0 <= i <= gs.len(),
            (BuildView {
                chunks: chunks_view(chunks@),
                pos: base_pos as int,
                base_no: base_no as int,
                ours_no: ours_no as int,
                theirs_no: theirs_no as int,
                conflicts: conflicts as int,
                ours_changes: ours_changes as int,
                theirs_changes: theirs_changes as int,
                agree: agree as int,
            }) == build_fold(bv, gs.take(i as int)),
            base_no == base_pos + 1,
            base_pos <= blen,
            forall|j: int| i <= j < gs.len() ==> base_pos <= #[trigger] gs[j].lo,
            ours_no <= 1 + base_pos + groups_lines(gs.take(i as int), false),
            theirs_no <= 1 + base_pos + groups_lines(gs.take(i as int), true),
            conflicts <= i,
            ours_changes <= i,
            theirs_changes <= i,
            agree <= i,
        decreases gs.len() - i,
    {
        let g = &groups[i];
        let ghost gv = gs[i as int];
        assert(g@ == gv);
        assert(group_wf(gv, blen));
        assert(gs.take(i + 1).drop_last() =~= gs.take(i as int));
        assert(gs.take(i + 1).last() == gv);
        proof {
            lemma_groups_lines_prefix(gs, i + 1, false);
            lemma_groups_lines_prefix(gs, i + 1, true);
            lemma_lines_total_nonneg(gv.members, false);
            lemma_lines_total_nonneg(gv.members, true);
        }
        let ghost chunks0 = chunks_view(chunks@);
        if g.lo > base_pos {
            let seg = copy_lines(base, base_pos, g.lo);
            let len = g.lo - base_pos;
            assert(seg@.len() == len) by {
                assert(strings_view(seg@).len() == seg@.len());
            }
            let c = stable_chunk(chunks.len(), seg, base_no, ours_no, theirs_no);
            chunks.push(c);
            base_no = base_no + len;
            ours_no = ours_no + len;
            theirs_no = theirs_no + len;
            base_pos = g.lo;
            assert(chunks_view(chunks@) =~= chunks0.push(c@));
        }
        let ghost chunks1 = chunks_view(chunks@);
        let ours = side_content(base, g, false);
        let theirs = side_content(base, g, true);
        let has_ours = group_has_side(g, false);
        let has_theirs = group_has_side(g, true);
        let kind = if has_ours && !has_theirs {
            ChunkKind::Ours
        } else if !has_ours && has_theirs {
            ChunkKind::Theirs
        } else if lines_equal(&ours, &theirs) {
            ChunkKind::Agree
        } else {
            ChunkKind::Conflict
        };
        match kind {
            ChunkKind::Ours => ours_changes = ours_changes + 1,
            ChunkKind::Theirs => theirs_changes = theirs_changes + 1,
            ChunkKind::Agree => agree = agree + 1,
            ChunkKind::Conflict => conflicts = conflicts + 1,
            ChunkKind::Stable => {},
        }
        let ours_len = ours.len();
        let theirs_len = theirs.len();
        let span = g.hi - g.lo;
        let base_lines = copy_lines(base, g.lo, g.hi);
        let c = MergeChunk {
            id: chunks.len(),
            kind,
            base: base_lines,
            ours,
            theirs,
            base_start: base_no,
            ours_start: ours_no,
            theirs_start: theirs_no,
        };
        chunks.push(c);
        assert(chunks_view(chunks@) =~= chunks1.push(c@));
        base_no = base_no + span;
        ours_no = ours_no + ours_len;
        theirs_no = theirs_no + theirs_len;
        base_pos = g.hi;
        proof {
            assert(strings_view(c.ours@).len() == ours_len);
            assert(strings_view(c.theirs@).len() == theirs_len);
            assert forall|j: int| i + 1 <= j < gs.len() implies base_pos <= #[trigger] gs[j].lo by {
                assert(gs[i as int].hi <= gs[j].lo);
            }
        }
        i = i + 1;
    }
    assert(gs.take(gs.len() as int) =~= gs);
    if base_pos < base.len() {
        let seg = copy_lines(base, base_pos, base.len());
        let ghost chunks0 = chunks_view(chunks@);
        let c = stable_chunk(chunks.len(), seg, base_no, ours_no, theirs_no);
        chunks.push(c);
        assert(chunks_view(chunks@) =~= chunks0.push(c@));
    }
    MergeResult {
        chunks,
        conflicts,
        ours_changes,
        theirs_changes,
        agree,
        ours_label: None,
        theirs_label: None,
    }
}


// ---------------------------------------------------------------------------
// Shape of the hunk lists and groups
// ---------------------------------------------------------------------------

/// Ops in order inside the two sequences (what a covering op list satisfies).
pub open spec fn ops_ordered(ops: Seq<LineOp>, old_len: int, new_len: int) -> bool {
    &&& forall|k: int|
        0 <= k < ops.len() ==> 0 <= #[trigger] ops[k].old_start <= ops[k].old_end <= old_len
            && 0 <= ops[k].new_start <= ops[k].new_end <= new_len
    &&& forall|k: int, l: int|
        0 <= k < l < ops.len() ==> #[trigger] ops[k].old_end <= #[trigger] ops[l].old_start
            && ops[k].new_end <= ops[l].new_start
}

/// Hunks of one side: inside the base, in order, without overlap.
pub open spec fn side_sorted(h: Seq<HunkView>, base_len: int, theirs: bool) -> bool {
    &&& forall|k: int| 0 <= k < h.len() ==> range_ok(#[trigger] h[k], base_len)
    &&& forall|k: int| 0 <= k < h.len() ==> #[trigger] h[k].theirs == theirs
    &&& forall|k: int, l: int| 0 <= k < l < h.len() ==> #[trigger] h[k].end <= #[trigger] h[l].start
}

/// Hunks of both sides in base order; those of one side without overlap.
pub open spec fn merged_wf(m: Seq<HunkView>, base_len: int) -> bool {
    &&& forall|k: int| 0 <= k < m.len() ==> range_ok(#[trigger] m[k], base_len)
    &&& forall|k: int, l: int| 0 <= k < l < m.len() ==> #[trigger] m[k].start <= #[trigger] m[l].start
    &&& forall|k: int, l: int|
        0 <= k < l < m.len() && #[trigger] m[k].theirs == #[trigger] m[l].theirs ==> m[k].end
            <= m[l].start
}

pub proof fn lemma_lines_total_concat(s: Seq<HunkView>, t: Seq<HunkView>, theirs: bool)
    ensures
        lines_total(s + t, theirs) == lines_total(s, theirs) + lines_total(t, theirs),
    decreases t.len(),
{
    if t.len() == 0 {
        assert(s + t =~= s);
    } else {
        lemma_lines_total_concat(s, t.drop_last(), theirs);
        assert((s + t).drop_last() =~= s + t.drop_last());
        assert((s + t).last() == t.last());
    }
}

/// The hunks of a line diff are those of one side, in order, and hold at
/// most as many lines as the new text.
pub proof fn lemma_op_hunks_sorted(ops: Seq<LineOp>, new: Seq<Seq<char>>, old_len: int, theirs: bool)
    requires
        ops_ordered(ops, old_len, new.len() as int),
    ensures
        side_sorted(op_hunks(ops, new, theirs), old_len, theirs),
        ops.len() > 0 ==> forall|k: int|
            0 <= k < op_hunks(ops, new, theirs).len() ==> #[trigger] op_hunks(ops, new, theirs)[k].end
                <= ops.last().old_end,
        0 <= lines_total(op_hunks(ops, new, theirs), theirs) <= if ops.len() > 0 {
            ops.last().new_end as int
        } else {
            0
        },
        lines_total(op_hunks(ops, new, theirs), !theirs) == 0,
    decreases ops.len(),
{
    if ops.len() > 0 {
        let prev_ops = ops.drop_last();
        assert(ops_ordered(prev_ops, old_len, new.len() as int)) by {
            assert forall|k: int, l: int| 0 <= k < l < prev_ops.len() implies #[trigger] prev_ops[k].old_end
                <= #[trigger] prev_ops[l].old_start && prev_ops[k].new_end <= prev_ops[l].new_start by {
                assert(prev_ops[k] == ops[k] && prev_ops[l] == ops[l]);
            }
        }
        lemma_op_hunks_sorted(prev_ops, new, old_len, theirs);
        let prev = op_hunks(prev_ops, new, theirs);
        let op = ops.last();
        assert(0 <= op.old_start <= op.old_end <= old_len);
        if prev_ops.len() > 0 {
            assert(prev_ops.last() == ops[ops.len() - 2]);
            assert(ops[ops.len() - 2].old_end <= ops[ops.len() - 1].old_start);
        }
        if !op.equal {
            let h = HunkView {
                start: op.old_start as int,
                end: op.old_end as int,
                lines: clean_all(new.subrange(op.new_start as int, op.new_end as int)),
                theirs,
            };
            let cur = prev.push(h);
            assert(op_hunks(ops, new, theirs) == cur);
            assert(cur.drop_last() =~= prev);
            assert(h.lines.len() == op.new_end - op.new_start);
            assert forall|k: int, l: int| 0 <= k < l < cur.len() implies #[trigger] cur[k].end
                <= #[trigger] cur[l].start by {
                if l == cur.len() - 1 {
                    assert(cur[k] == prev[k]);
                } else {
                    assert(cur[k] == prev[k] && cur[l] == prev[l]);
                }
            }
            assert forall|k: int| 0 <= k < cur.len() implies #[trigger] cur[k].end <= op.old_end by {
                if k < prev.len() {
                    assert(cur[k] == prev[k]);
                }
            }
            assert(forall|k: int| 0 <= k < cur.len() ==> range_ok(#[trigger] cur[k], old_len));
            assert(forall|k: int| 0 <= k < cur.len() ==> #[trigger] cur[k].theirs == theirs);
            if prev_ops.len() > 0 {
                assert(ops[ops.len() - 2].new_end <= ops[ops.len() - 1].new_start);
            }
        } else {
            assert forall|k: int| 0 <= k < prev.len() implies #[trigger] prev[k].end <= op.old_end by {
            }
            if prev_ops.len() > 0 {
                assert(ops[ops.len() - 2].new_end <= ops[ops.len() - 1].new_start);
            }
        }
    }
}

/// Every element of the merge comes from one of the two lists.
pub proof fn lemma_merge_sorted_from(a: Seq<HunkView>, b: Seq<HunkView>)
    ensures
        merge_sorted(a, b).len() == a.len() + b.len(),
        forall|k: int|
            0 <= k < merge_sorted(a, b).len() ==> a.contains(#[trigger] merge_sorted(a, b)[k])
                || b.contains(merge_sorted(a, b)[k]),
    decreases a.len() + b.len(),
{
    if a.len() > 0 && b.len() > 0 {
        let m = merge_sorted(a, b);
        if key_le(a[0], b[0]) {
            lemma_merge_sorted_from(a.drop_first(), b);
            let rest = merge_sorted(a.drop_first(), b);
            assert forall|k: int| 0 <= k < m.len() implies a.contains(#[trigger] m[k]) || b.contains(m[k]) by {
                if k == 0 {
                    assert(a[0] == m[k]);
                } else {
                    assert(m[k] == rest[k - 1]);
                    if a.drop_first().contains(rest[k - 1]) {
                        let i = choose|i: int| 0 <= i < a.drop_first().len() && a.drop_first()[i] == rest[k - 1];
                        assert(a[i + 1] == m[k]);
                    }
                }
            }
        } else {
            lemma_merge_sorted_from(a, b.drop_first());
            let rest = merge_sorted(a, b.drop_first());
            assert forall|k: int| 0 <= k < m.len() implies a.contains(#[trigger] m[k]) || b.contains(m[k]) by {
                if k == 0 {
                    assert(b[0] == m[k]);
                } else {
                    assert(m[k] == rest[k - 1]);
                    if b.drop_first().contains(rest[k - 1]) {
                        let i = choose|i: int| 0 <= i < b.drop_first().len() && b.drop_first()[i] == rest[k - 1];
                        assert(b[i + 1] == m[k]);
                    }
                }
            }
        }
    } else if a.len() == 0 {
        assert forall|k: int| 0 <= k < b.len() implies a.contains(#[trigger] merge_sorted(a, b)[k])
            || b.contains(merge_sorted(a, b)[k]) by {
            assert(b[k] == merge_sorted(a, b)[k]);
        }
    } else {
        assert forall|k: int| 0 <= k < a.len() implies a.contains(#[trigger] merge_sorted(a, b)[k])
            || b.contains(merge_sorted(a, b)[k]) by {
            assert(a[k] == merge_sorted(a, b)[k]);
        }
    }
}

/// Merging the hunks of the two sides keeps base order and each side's
/// order, and adds up their lines.
#[verifier::spinoff_prover]
#[verifier::rlimit(40)]
pub proof fn lemma_merge_sorted_wf(a: Seq<HunkView>, b: Seq<HunkView>, base_len: int)
    requires
        side_sorted(a, base_len, false),
        side_sorted(b, base_len, true),
    ensures
        merged_wf(merge_sorted(a, b), base_len),
        lines_total(merge_sorted(a, b), false) == lines_total(a, false) + lines_total(b, false),
        lines_total(merge_sorted(a, b), true) == lines_total(a, true) + lines_total(b, true),
    decreases a.len() + b.len(),
{
    let m = merge_sorted(a, b);
    if a.len() == 0 {
        assert(a =~= Seq::<HunkView>::empty());
        lemma_lines_total_concat(a, b, false);
        lemma_lines_total_concat(a, b, true);
        assert(a + b =~= b);
    } else if b.len() == 0 {
        assert(b =~= Seq::<HunkView>::empty());
        lemma_lines_total_concat(a, b, false);
        lemma_lines_total_concat(a, b, true);
        assert(a + b =~= a);
    } else {
        let (x, a2, b2) = if key_le(a[0], b[0]) {
            (a[0], a.drop_first(), b)
        } else {
            (b[0], a, b.drop_first())
        };
        assert(side_sorted(a2, base_len, false)) by {
            if key_le(a[0], b[0]) {
                assert forall|k: int, l: int| 0 <= k < l < a2.len() implies #[trigger] a2[k].end
                    <= #[trigger] a2[l].start by {
                    assert(a2[k] == a[k + 1] && a2[l] == a[l + 1]);
                }
            }
        }
        assert(side_sorted(b2, base_len, true)) by {
            if !key_le(a[0], b[0]) {
                assert forall|k: int, l: int| 0 <= k < l < b2.len() implies #[trigger] b2[k].end
                    <= #[trigger] b2[l].start by {
                    assert(b2[k] == b[k + 1] && b2[l] == b[l + 1]);
                }
            }
        }
        lemma_merge_sorted_wf(a2, b2, base_len);
        lemma_merge_sorted_from(a2, b2);
        let rest = merge_sorted(a2, b2);
        assert(m == seq![x] + rest);
        // x starts no later than anything after it, and ends before later hunks of its side.
        assert forall|j: int| 0 <= j < rest.len() implies x.start <= #[trigger] rest[j].start && (x.theirs
            == rest[j].theirs ==> x.end <= rest[j].start) by {
            let y = rest[j];
            if a2.contains(y) {
                let i = choose|i: int| 0 <= i < a2.len() && a2[i] == y;
                if key_le(a[0], b[0]) {
                    assert(a[i + 1] == y);
                    assert(a[0].end <= a[i + 1].start);
                } else {
                    assert(a[i] == y);
                    assert(b[0].theirs != y.theirs);
                    if i > 0 {
                        assert(a[0].end <= a[i].start);
                    }
                }
            } else {
                let i = choose|i: int| 0 <= i < b2.len() && b2[i] == y;
                if key_le(a[0], b[0]) {
                    assert(b[i] == y);
                    assert(a[0].theirs != y.theirs);
                    if i > 0 {
                        assert(b[0].end <= b[i].start);
                    }
                } else {
                    assert(b[i + 1] == y);
                    assert(b[0].end <= b[i + 1].start);
                }
            }
        }
        assert forall|k: int| 0 <= k < m.len() implies range_ok(#[trigger] m[k], base_len) by {
            if k > 0 {
                assert(m[k] == rest[k - 1]);
            }
        }
        assert forall|k: int, l: int| 0 <= k < l < m.len() implies #[trigger] m[k].start
            <= #[trigger] m[l].start by {
            assert(m[l] == rest[l - 1]);
            if k > 0 {
                assert(m[k] == rest[k - 1]);
            }
        }
        assert forall|k: int, l: int|
            0 <= k < l < m.len() && #[trigger] m[k].theirs == #[trigger] m[l].theirs implies m[k].end
                <= m[l].start by {
            assert(m[l] == rest[l - 1]);
            if k > 0 {
                assert(m[k] == rest[k - 1]);
            }
        }
        lemma_lines_total_concat(seq![x], rest, false);
        lemma_lines_total_concat(seq![x], rest, true);
        assert(seq![x].drop_last() =~= Seq::<HunkView>::empty());
        if key_le(a[0], b[0]) {
            assert(a =~= seq![x] + a2);
            lemma_lines_total_concat(seq![x], a2, false);
            lemma_lines_total_concat(seq![x], a2, true);
        } else {
            assert(b =~= seq![x] + b2);
            lemma_lines_total_concat(seq![x], b2, false);
            lemma_lines_total_concat(seq![x], b2, true);
        }
    }
}

/// Shape of the groups of hunks in base order, with what the induction needs.
pub open spec fn groups_shape(gs: Seq<GroupView>, m: Seq<HunkView>, base_len: int) -> bool {
    &&& groups_wf(gs, base_len)
    &&& forall|i: int|
        0 <= i < gs.len() ==> (#[trigger] gs[i]).members.len() > 0 && gs[i].lo
            == gs[i].members[0].start
    &&& forall|i: int, k: int|
        0 <= i < gs.len() && 0 <= k < gs[i].members.len() ==> m.contains(
            #[trigger] gs[i].members[k],
        )
}

/// Grouping hunks in base order yields well-formed groups in base order,
/// holding all the hunks' lines.
#[verifier::spinoff_prover]
#[verifier::rlimit(40)]
pub proof fn lemma_groups_wf(m: Seq<HunkView>, base_len: int)
    requires
        merged_wf(m, base_len),
    ensures
        groups_shape(group_hunks_spec(m), m, base_len),
        groups_lines(group_hunks_spec(m), false) == lines_total(m, false),
        groups_lines(group_hunks_spec(m), true) == lines_total(m, true),
    decreases m.len(),
{
    if m.len() > 0 {
        let p = m.drop_last();
        assert(merged_wf(p, base_len)) by {
            assert forall|k: int, l: int| 0 <= k < l < p.len() implies #[trigger] p[k].start
                <= #[trigger] p[l].start by {
                assert(p[k] == m[k] && p[l] == m[l]);
            }
            assert forall|k: int, l: int|
                0 <= k < l < p.len() && #[trigger] p[k].theirs == #[trigger] p[l].theirs implies p[k].end
                    <= p[l].start by {
                assert(p[k] == m[k] && p[l] == m[l]);
            }
        }
        lemma_groups_wf(p, base_len);
        let g = group_hunks_spec(p);
        let h = m.last();
        assert(range_ok(m[m.len() - 1], base_len));
        // Hunks of earlier groups come before h.
        assert forall|i: int, k: int| 0 <= i < g.len() && 0 <= k < g[i].members.len() implies (#[trigger] g[i].members[k]).start
            <= h.start && (g[i].members[k].theirs == h.theirs ==> g[i].members[k].end <= h.start) by {
            let x = g[i].members[k];
            assert(p.contains(x));
            let j = choose|j: int| 0 <= j < p.len() && p[j] == x;
            assert(m[j] == x);
            assert(m[j].start <= m[m.len() - 1].start);
            if x.theirs == h.theirs {
                assert(m[j].theirs == m[m.len() - 1].theirs);
            }
        }
        let gm = group_hunks_spec(m);
        if g.len() > 0 && collides(g.last().lo, g.last().hi, h.start, h.end) {
            let last = g.last();
            let nl = GroupView {
                lo: if last.lo <= h.start { last.lo } else { h.start },
                hi: if last.hi >= h.end { last.hi } else { h.end },
                members: last.members.push(h),
            };
            assert(gm == g.update(g.len() - 1, nl));
            assert(g[g.len() - 1] == last);
            assert(last.members[0].start <= h.start);
            assert(nl.lo == last.lo);
            assert(group_wf(last, base_len));
            assert(group_wf(nl, base_len)) by {
                assert forall|k: int| 0 <= k < nl.members.len() implies nl.lo <= #[trigger] nl.members[k].start
                    <= nl.members[k].end <= nl.hi by {
                    if k < last.members.len() {
                        assert(nl.members[k] == last.members[k]);
                    }
                }
                assert forall|k: int, l: int|
                    0 <= k < l < nl.members.len() && #[trigger] nl.members[k].theirs
                        == #[trigger] nl.members[l].theirs implies nl.members[k].end <= nl.members[l].start by {
                    assert(nl.members[k] == last.members[k]);
                    if l < last.members.len() {
                        assert(nl.members[l] == last.members[l]);
                    } else {
                        assert(last.members[k] == g[g.len() - 1].members[k]);
                    }
                }
            }
            assert forall|i: int| 0 <= i < gm.len() implies group_wf(#[trigger] gm[i], base_len) by {
                if i < gm.len() - 1 {
                    assert(gm[i] == g[i]);
                }
            }
            assert forall|i: int, j: int| 0 <= i < j < gm.len() implies #[trigger] gm[i].hi <= #[trigger] gm[j].lo by {
                assert(gm[i] == g[i]);
                if j < gm.len() - 1 {
                    assert(gm[j] == g[j]);
                }
            }
            assert forall|i: int| 0 <= i < gm.len() implies (#[trigger] gm[i]).members.len() > 0 && gm[i].lo
                == gm[i].members[0].start by {
                if i < gm.len() - 1 {
                    assert(gm[i] == g[i]);
                }
            }
            assert forall|i: int, k: int| 0 <= i < gm.len() && 0 <= k < gm[i].members.len() implies m.contains(
                #[trigger] gm[i].members[k],
            ) by {
                let x = gm[i].members[k];
                if i == gm.len() - 1 && k == last.members.len() {
                    assert(m[m.len() - 1] == x);
                } else {
                    if i < gm.len() - 1 {
                        assert(x == g[i].members[k]);
                    } else {
                        assert(x == g[i].members[k]);
                    }
                    assert(p.contains(x));
                    let j = choose|j: int| 0 <= j < p.len() && p[j] == x;
                    assert(m[j] == x);
                }
            }
            assert(gm.drop_last() =~= g.drop_last());
            assert(gm.last() == nl);
            assert(nl.members.drop_last() =~= last.members);
            assert(nl.members.last() == h);
            assert(m.drop_last() == p);
            assert(groups_lines(g, false) == groups_lines(g.drop_last(), false) + lines_total(last.members, false));
            assert(groups_lines(g, true) == groups_lines(g.drop_last(), true) + lines_total(last.members, true));
            assert(lines_total(nl.members, false) == lines_total(last.members, false) + if h.theirs == false { h.lines.len() as int } else { 0 });
            assert(lines_total(nl.members, true) == lines_total(last.members, true) + if h.theirs == true { h.lines.len() as int } else { 0 });
            assert(groups_lines(gm, false) == groups_lines(g.drop_last(), false) + lines_total(nl.members, false));
            assert(groups_lines(gm, true) == groups_lines(g.drop_last(), true) + lines_total(nl.members, true));
        } else {
            let ng = GroupView { lo: h.start, hi: h.end, members: seq![h] };
            assert(gm == g.push(ng));
            if g.len() > 0 {
                let last = g.last();
                assert(g[g.len() - 1] == last);
                assert(group_wf(last, base_len));
                assert(last.members[0].start <= h.start);
                assert(last.hi <= h.start);
            }
            assert forall|i: int| 0 <= i < gm.len() implies group_wf(#[trigger] gm[i], base_len) by {
                if i < gm.len() - 1 {
                    assert(gm[i] == g[i]);
                }
            }
            assert forall|i: int, j: int| 0 <= i < j < gm.len() implies #[trigger] gm[i].hi <= #[trigger] gm[j].lo by {
                assert(gm[i] == g[i]);
                if j < gm.len() - 1 {
                    assert(gm[j] == g[j]);
                } else {
                    assert(g[i].hi <= g[g.len() - 1].hi) by {
                        if i < g.len() - 1 {
                            assert(g[i].hi <= g[g.len() - 1].lo);
                            assert(group_wf(g[g.len() - 1], base_len));
                        }
                    }
                }
            }
            assert forall|i: int| 0 <= i < gm.len() implies (#[trigger] gm[i]).members.len() > 0 && gm[i].lo
                == gm[i].members[0].start by {
                if i < gm.len() - 1 {
                    assert(gm[i] == g[i]);
                }
            }
            assert forall|i: int, k: int| 0 <= i < gm.len() && 0 <= k < gm[i].members.len() implies m.contains(
                #[trigger] gm[i].members[k],
            ) by {
                let x = gm[i].members[k];
                if i == gm.len() - 1 {
                    assert(m[m.len() - 1] == x);
                } else {
                    assert(x == g[i].members[k]);
                    assert(p.contains(x));
                    let j = choose|j: int| 0 <= j < p.len() && p[j] == x;
                    assert(m[j] == x);
                }
            }
            assert(gm.drop_last() =~= g);
            assert(seq![h].drop_last() =~= Seq::<HunkView>::empty());
            assert(gm.last() == ng);
            assert(m.drop_last() == p);
            assert(ng.members.drop_last() =~= Seq::<HunkView>::empty());
            assert(lines_total(Seq::<HunkView>::empty(), false) == 0);
            assert(lines_total(Seq::<HunkView>::empty(), true) == 0);
            assert(lines_total(ng.members, false) == if h.theirs == false { h.lines.len() as int } else { 0 });
            assert(lines_total(ng.members, true) == if h.theirs == true { h.lines.len() as int } else { 0 });
            assert(groups_lines(gm, false) == groups_lines(g, false) + lines_total(ng.members, false));
            assert(groups_lines(gm, true) == groups_lines(g, true) + lines_total(ng.members, true));
        }
    }
}


// ---------------------------------------------------------------------------
// The merge
// ---------------------------------------------------------------------------

/// Three-way merge of two line diffs of the same base: the hunks of both
/// sides grouped by collisions and turned into chunks over the base.
pub open spec fn merge_spec(
    base: Seq<Seq<char>>,
    ours_ops: Seq<LineOp>,
    ours_new: Seq<Seq<char>>,
    theirs_ops: Seq<LineOp>,
    theirs_new: Seq<Seq<char>>,
) -> ResultView {
    build_result(
        clean_all(base),
        group_hunks_spec(
            merge_sorted(op_hunks(ours_ops, ours_new, false), op_hunks(theirs_ops, theirs_new, true)),
        ),
    )
}

/// A covering op list is ordered.
pub proof fn lemma_cover_ordered(ops: Seq<LineOp>, old_len: int, new_len: int)
    requires
        ops_cover(ops, old_len, new_len),
    ensures
        ops_ordered(ops, old_len, new_len),
{
    lemma_ops_bounds(ops, old_len, new_len);
}

/// Merges two line diffs that share their base (base→ours and base→theirs).
pub fn merge_from_diffs(ours: &LineDiff, theirs: &LineDiff) -> (r: MergeResult)
    requires
        ops_cover(ours.ops@, ours.old_lines@.len() as int, ours.new_lines@.len() as int),
        ops_cover(theirs.ops@, theirs.old_lines@.len() as int, theirs.new_lines@.len() as int),
        strings_view(ours.old_lines@) == strings_view(theirs.old_lines@),
        ours.old_lines@.len() + ours.new_lines@.len() + 1 <= usize::MAX,
        ours.old_lines@.len() + theirs.new_lines@.len() + 1 <= usize::MAX,
    ensures
        r@ == merge_spec(
            strings_view(ours.old_lines@),
            ours.ops@,
            strings_view(ours.new_lines@),
            theirs.ops@,
            strings_view(theirs.new_lines@),
        ),
{
    broadcast use lemma_strings_view;

    let ghost blen = ours.old_lines@.len() as int;
    assert(strings_view(ours.old_lines@).len() == ours.old_lines@.len());
    assert(strings_view(theirs.old_lines@).len() == theirs.old_lines@.len());
    assert(strings_view(ours.new_lines@).len() == ours.new_lines@.len());
    assert(strings_view(theirs.new_lines@).len() == theirs.new_lines@.len());
    let base = clean_range(&ours.old_lines, 0, ours.old_lines.len());
    assert(strings_view(ours.old_lines@).subrange(0, blen) =~= strings_view(ours.old_lines@));
    let a = extract_hunks(ours, false);
    let b = extract_hunks(theirs, true);
    let ghost av = op_hunks(ours.ops@, strings_view(ours.new_lines@), false);
    let ghost bv = op_hunks(theirs.ops@, strings_view(theirs.new_lines@), true);
    proof {
        lemma_cover_ordered(ours.ops@, blen, ours.new_lines@.len() as int);
        lemma_cover_ordered(theirs.ops@, blen, theirs.new_lines@.len() as int);
        lemma_op_hunks_sorted(ours.ops@, strings_view(ours.new_lines@), blen, false);
        lemma_op_hunks_sorted(theirs.ops@, strings_view(theirs.new_lines@), blen, true);
        if ours.ops@.len() > 0 {
            assert(ours.ops@[ours.ops@.len() - 1].new_end <= ours.new_lines@.len());
        }
        if theirs.ops@.len() > 0 {
            assert(theirs.ops@[theirs.ops@.len() - 1].new_end <= theirs.new_lines@.len());
        }
        lemma_merge_sorted_wf(av, bv, blen);
        lemma_groups_wf(merge_sorted(av, bv), blen);
    }
    let all = merge_hunks(&a, &b);
    let groups = group_hunks(all);
    proof {
        assert(strings_view(base@).len() == base@.len());
        assert(clean_all(strings_view(ours.old_lines@)).len() == blen);
    }
    build_chunks(&base, &groups)
}

proof fn lemma_split_lines_len(s: Seq<char>)
    ensures
        split_lines(s).len() <= s.len(),
    decreases s.len(),
{
    if s.len() > 0 {
        lemma_line_end_bounds(s, 0);
        lemma_split_lines_len(s.skip(line_end(s, 0)));
    }
}

/// The result of merging the texts with some line diffs that `similar` may return.
pub open spec fn merge_text_result(base: Seq<char>, ours: Seq<char>, theirs: Seq<char>, r: ResultView) -> bool {
    exists|o: Seq<LineOp>, t: Seq<LineOp>|
        {
            &&& ops_cover(o, split_lines(base).len() as int, split_lines(ours).len() as int)
            &&& equal_ops_match(o, split_lines(base), split_lines(ours))
            &&& ops_cover(t, split_lines(base).len() as int, split_lines(theirs).len() as int)
            &&& equal_ops_match(t, split_lines(base), split_lines(theirs))
            &&& r == merge_spec(split_lines(base), o, split_lines(ours), t, split_lines(theirs))
        }
}

/// Three-way merge of three texts; chunks come back in file order with counts.
pub fn merge_text(base: &str, ours: &str, theirs: &str) -> (r: MergeResult)
    requires
        base@.len() + ours@.len() + 1 <= usize::MAX,
        base@.len() + theirs@.len() + 1 <= usize::MAX,
    ensures
        merge_text_result(base@, ours@, theirs@, r@),
{
    broadcast use lemma_strings_view;

    let ours_diff = diff_lines(base, ours, DIFF_TIMEOUT_MS);
    let theirs_diff = diff_lines(base, theirs, DIFF_TIMEOUT_MS);
    proof {
        lemma_split_lines_len(base@);
        lemma_split_lines_len(ours@);
        lemma_split_lines_len(theirs@);
        assert(strings_view(ours_diff.old_lines@).len() == ours_diff.old_lines@.len());
        assert(strings_view(ours_diff.new_lines@).len() == ours_diff.new_lines@.len());
        assert(strings_view(theirs_diff.new_lines@).len() == theirs_diff.new_lines@.len());
        assert(strings_view(theirs_diff.old_lines@).len() == theirs_diff.old_lines@.len());
    }
    let r = merge_from_diffs(&ours_diff, &theirs_diff);
    assert(merge_text_result(base@, ours@, theirs@, r@)) by {
        let o = ours_diff.ops@;
        let t = theirs_diff.ops@;
        assert(ops_cover(o, split_lines(base@).len() as int, split_lines(ours@).len() as int));
    }
    r
}


// ---------------------------------------------------------------------------
// Conflict-marked files
// ---------------------------------------------------------------------------

/// Why a conflict-marked file could not be parsed.
#[derive(Debug, Clone, Copy, PartialEq, Eq, Structural)]
pub enum ConflictParseError {
    /// The file holds no conflict markers at all
    NoMarkers,
    /// Markers near this line (1-based) are incomplete or out of order
    Malformed(usize),
}

/// The part of a conflict-marked file being read.
#[derive(Debug, Clone, Copy, PartialEq, Eq, Structural)]
pub enum Section {
    /// Shared content outside conflicts
    Common,
    /// Local content after `<<<<<<<`
    Ours,
    /// Base content after `|||||||` (diff3 style only)
    Base,
    /// Remote content after `=======`
    Theirs,
}

/// `line` starts with seven copies of `c`.
pub open spec fn is_marker(line: Seq<char>, c: char) -> bool {
    &&& line.len() >= 7
    &&& forall|i: int| 0 <= i < 7 ==> line[i] == c
}

/// `line` is a separator: seven or more `'='` and nothing else.
pub open spec fn is_separator(line: Seq<char>) -> bool {
    &&& line.len() >= 7
    &&& forall|i: int| 0 <= i < line.len() ==> line[i] == '='
}

/// Parser state after reading some lines of a conflict-marked file.
pub struct ParseView {
    pub chunks: Seq<ChunkView>,
    pub conflicts: int,
    pub ours_label: Option<Seq<char>>,
    pub theirs_label: Option<Seq<char>>,
    pub base_no: int,
    pub ours_no: int,
    pub theirs_no: int,
    pub common: Seq<Seq<char>>,
    pub ours: Seq<Seq<char>>,
    pub base: Seq<Seq<char>>,
    pub theirs: Seq<Seq<char>>,
    pub section: Section,
    pub conflict_start: int,
    /// Line (1-based) of a misplaced marker, once one was met
    pub failed: Option<int>,
}

/// Turns the buffered shared lines into a stable chunk, if there are any.
pub open spec fn flush_common_spec(st: ParseView) -> ParseView {
    if st.common.len() == 0 {
        st
    } else {
        ParseView {
            chunks: st.chunks.push(
                ChunkView {
                    id: st.chunks.len() as int,
                    kind: ChunkKind::Stable,
                    base: st.common,
                    ours: st.common,
                    theirs: st.common,
                    base_start: st.base_no,
                    ours_start: st.ours_no,
                    theirs_start: st.theirs_no,
                },
            ),
            base_no: st.base_no + st.common.len(),
            ours_no: st.ours_no + st.common.len(),
            theirs_no: st.theirs_no + st.common.len(),
            common: Seq::empty(),
            ..st
        }
    }
}

/// A marker's label: what follows the seven marker characters, trimmed.
pub open spec fn marker_label(line: Seq<char>) -> Seq<char> {
    trim_ws(line.skip(7))
}

/// Reads line number `no` (1-based) of a conflict-marked file.
pub open spec fn parse_step(st: ParseView, line: Seq<char>, no: int) -> ParseView {
    if st.failed is Some {
        st
    } else if is_marker(line, '<') {
        if st.section != Section::Common {
            ParseView { failed: Some(no), ..st }
        } else {
            let st1 = flush_common_spec(st);
            let label = marker_label(line);
            ParseView {
                conflict_start: no,
                ours_label: if st1.ours_label is None && label.len() > 0 {
                    Some(label)
                } else {
                    st1.ours_label
                },
                section: Section::Ours,
                ..st1
            }
        }
    } else if st.section == Section::Ours && is_marker(line, '|') {
        ParseView { section: Section::Base, ..st }
    } else if (st.section == Section::Ours || st.section == Section::Base) && is_separator(line) {
        ParseView { section: Section::Theirs, ..st }
    } else if is_marker(line, '>') {
        if st.section != Section::Theirs {
            ParseView { failed: Some(no), ..st }
        } else {
            let label = marker_label(line);
            ParseView {
                theirs_label: if st.theirs_label is None && label.len() > 0 {
                    Some(label)
                } else {
                    st.theirs_label
                },
                chunks: st.chunks.push(
                    ChunkView {
                        id: st.chunks.len() as int,
                        kind: ChunkKind::Conflict,
                        base: st.base,
                        ours: st.ours,
                        theirs: st.theirs,
                        base_start: st.base_no,
                        ours_start: st.ours_no,
                        theirs_start: st.theirs_no,
                    },
                ),
                base_no: st.base_no + st.base.len(),
                ours_no: st.ours_no + st.ours.len(),
                theirs_no: st.theirs_no + st.theirs.len(),
                conflicts: st.conflicts + 1,
                base: Seq::empty(),
                ours: Seq::empty(),
                theirs: Seq::empty(),
                section: Section::Common,
                ..st
            }
        }
    } else {
        match st.section {
            Section::Common => ParseView { common: st.common.push(line), ..st },
            Section::Ours => ParseView { ours: st.ours.push(line), ..st },
            Section::Base => ParseView { base: st.base.push(line), ..st },
            Section::Theirs => ParseView { theirs: st.theirs.push(line), ..st },
        }
    }
}

/// The parser state before reading anything.
pub open spec fn parse_start() -> ParseView {
    ParseView {
        chunks: Seq::empty(),
        conflicts: 0,
        ours_label: None,
        theirs_label: None,
        base_no: 1,
        ours_no: 1,
        theirs_no: 1,
        common: Seq::empty(),
        ours: Seq::empty(),
        base: Seq::empty(),
        theirs: Seq::empty(),
        section: Section::Common,
        conflict_start: 0,
        failed: None,
    }
}

/// The parser state after reading `lines` (line `k` has number `k + 1`).
pub open spec fn parse_fold(lines: Seq<Seq<char>>) -> ParseView
    decreases lines.len(),
{
    if lines.len() == 0 {
        parse_start()
    } else {
        parse_step(parse_fold(lines.drop_last()), lines.last(), lines.len() as int)
    }
}

/// The lines of a conflict-marked file: as `str::lines` yields them, with
/// trailing `'\r'` removed.
pub open spec fn conflict_lines(text: Seq<char>) -> Seq<Seq<char>> {
    str_lines(text).map_values(|l: Seq<char>| trim_end_cr(l))
}

/// What parsing a conflict-marked file gives: the chunks (only stable and
/// conflict chunks, since git already wrote non-conflicting changes into the
/// file) and the branch labels, or the error.
pub open spec fn parse_result(text: Seq<char>) -> Result<ResultView, ConflictParseError> {
    let st = parse_fold(conflict_lines(text));
    if st.failed is Some {
        Err(ConflictParseError::Malformed(st.failed->0 as usize))
    } else if st.section != Section::Common {
        Err(ConflictParseError::Malformed(st.conflict_start as usize))
    } else if st.conflicts == 0 {
        Err(ConflictParseError::NoMarkers)
    } else {
        let last = flush_common_spec(st);
        Ok(
            ResultView {
                chunks: last.chunks,
                conflicts: last.conflicts,
                ours_changes: 0,
                theirs_changes: 0,
                agree: 0,
                ours_label: last.ours_label,
                theirs_label: last.theirs_label,
            },
        )
    }
}

/// Executable parser state.
struct Parser {
    chunks: Vec<MergeChunk>,
    conflicts: usize,
    ours_label: Option<String>,
    theirs_label: Option<String>,
    base_no: usize,
    ours_no: usize,
    theirs_no: usize,
    common: Vec<String>,
    ours: Vec<String>,
    base: Vec<String>,
    theirs: Vec<String>,
    section: Section,
    conflict_start: usize,
}

impl Parser {
    spec fn view(&self) -> ParseView {
        ParseView {
            chunks: chunks_view(self.chunks@),
            conflicts: self.conflicts as int,
            ours_label: opt_view(self.ours_label),
            theirs_label: opt_view(self.theirs_label),
            base_no: self.base_no as int,
            ours_no: self.ours_no as int,
            theirs_no: self.theirs_no as int,
            common: strings_view(self.common@),
            ours: strings_view(self.ours@),
            base: strings_view(self.base@),
            theirs: strings_view(self.theirs@),
            section: self.section,
            conflict_start: self.conflict_start as int,
            failed: None,
        }
    }

    /// Line numbers stay within the lines read so far (`read` of them).
    spec fn bounded(&self, read: int) -> bool {
        &&& self.base_no + self.common@.len() + self.base@.len() <= read + 1
        &&& self.ours_no + self.common@.len() + self.ours@.len() <= read + 1
        &&& self.theirs_no + self.common@.len() + self.theirs@.len() <= read + 1
        &&& self.conflicts <= read
        &&& self.conflict_start <= read
    }

    fn flush_common(&mut self)
        requires
            old(self).base_no + old(self).common@.len() <= usize::MAX,
            old(self).ours_no + old(self).common@.len() <= usize::MAX,
            old(self).theirs_no + old(self).common@.len() <= usize::MAX,
        ensures
            final(self).view() == flush_common_spec(old(self).view()),
            final(self).base_no + final(self).base@.len() == old(self).base_no + old(self).common@.len() + old(self).base@.len(),
            final(self).ours_no + final(self).ours@.len() == old(self).ours_no + old(self).common@.len() + old(self).ours@.len(),
            final(self).theirs_no + final(self).theirs@.len() == old(self).theirs_no + old(self).common@.len() + old(self).theirs@.len(),
            final(self).common@.len() == 0,
            final(self).conflicts == old(self).conflicts,
            final(self).conflict_start == old(self).conflict_start,
    {
        broadcast use lemma_strings_view;

        assert(strings_view(self.common@).len() == self.common@.len());
        if self.common.len() == 0 {
            return;
        }
        let ghost v0 = self.view();
        let mut lines: Vec<String> = Vec::new();
        std::mem::swap(&mut lines, &mut self.common);
        let n = lines.len();
        let c = stable_chunk(self.chunks.len(), lines, self.base_no, self.ours_no, self.theirs_no);
        self.chunks.push(c);
        self.base_no = self.base_no + n;
        self.ours_no = self.ours_no + n;
        self.theirs_no = self.theirs_no + n;
        assert(chunks_view(self.chunks@) =~= v0.chunks.push(c@));
        assert(strings_view(self.common@) =~= Seq::<Seq<char>>::empty());
        assert(self.view() =~= flush_common_spec(v0));
    }
}

/// Whether `line` starts with seven copies of `c`.
fn marker_at(line: &Vec<char>, c: char) -> (b: bool)
    ensures
        b == is_marker(line@, c),
{
    if line.len() < 7 {
        return false;
    }
    let mut i: usize = 0;
    while i < 7
        invariant
            line@.len() >= 7,
            0 <= i <= 7,
            forall|j: int| 0 <= j < i ==> line@[j] == c,
        decreases 7 - i,
    {
        if line[i] != c {
            return false;
        }
        i = i + 1;
    }
    true
}

/// Whether `line` is seven or more `'='` and nothing else.
fn separator_at(line: &Vec<char>) -> (b: bool)
    ensures
        b == is_separator(line@),
{
    if line.len() < 7 {
        return false;
    }
    let mut i: usize = 0;
    while i < line.len()
        invariant
            0 <= i <= line@.len(),
            forall|j: int| 0 <= j < i ==> line@[j] == '=',
        decreases line@.len() - i,
    {
        if line[i] != '=' {
            return false;
        }
        i = i + 1;
    }
    true
}

/// The trimmed label after a marker line's seven marker characters.
fn label_of(line: &Vec<char>) -> (label: String)
    requires
        line@.len() >= 7,
    ensures
        label@ == marker_label(line@),
{
    let (lo, hi) = trim_bounds(line, 7, line.len());
    assert(line@.subrange(7, line@.len() as int) =~= line@.skip(7));
    string_of_range(line, lo, hi)
}


impl Parser {
    /// Reads line number `no`; on a misplaced marker returns its line number.
    fn step(&mut self, line: &Vec<char>, no: usize) -> (failed: Option<usize>)
        requires
            1 <= no,
            old(self).bounded(no - 1),
        ensures
            match failed {
                None => final(self).view() == parse_step(old(self).view(), line@, no as int)
                    && final(self).bounded(no as int),
                Some(n) => parse_step(old(self).view(), line@, no as int).failed == Some(n as int),
            },
    {
        broadcast use lemma_strings_view;

        let ghost v0 = self.view();
        assert(strings_view(self.common@).len() == self.common@.len());
        assert(strings_view(self.ours@).len() == self.ours@.len());
        assert(strings_view(self.base@).len() == self.base@.len());
        assert(strings_view(self.theirs@).len() == self.theirs@.len());
        if marker_at(line, '<') {
            if self.section != Section::Common {
                return Some(no);
            }
            self.flush_common();
            let ghost v1 = self.view();
            let label = label_of(line);
            if self.ours_label.is_none() && !label.as_str().is_empty() {
                self.ours_label = Some(label);
            }
            self.conflict_start = no;
            self.section = Section::Ours;
            assert(self.view() =~= parse_step(v0, line@, no as int));
            return None;
        }
        if self.section == Section::Ours && marker_at(line, '|') {
            self.section = Section::Base;
            assert(self.view() =~= parse_step(v0, line@, no as int));
            return None;
        }
        if (self.section == Section::Ours || self.section == Section::Base) && separator_at(line) {
            self.section = Section::Theirs;
            assert(self.view() =~= parse_step(v0, line@, no as int));
            return None;
        }
        if marker_at(line, '>') {
            if self.section != Section::Theirs {
                return Some(no);
            }
            let label = label_of(line);
            if self.theirs_label.is_none() && !label.as_str().is_empty() {
                self.theirs_label = Some(label);
            }
            let mut base: Vec<String> = Vec::new();
            let mut ours: Vec<String> = Vec::new();
            let mut theirs: Vec<String> = Vec::new();
            std::mem::swap(&mut base, &mut self.base);
            std::mem::swap(&mut ours, &mut self.ours);
            std::mem::swap(&mut theirs, &mut self.theirs);
            let (nb, no_, nt) = (base.len(), ours.len(), theirs.len());
            let c = MergeChunk {
                id: self.chunks.len(),
                kind: ChunkKind::Conflict,
                base,
                ours,
                theirs,
                base_start: self.base_no,
                ours_start: self.ours_no,
                theirs_start: self.theirs_no,
            };
            let ghost chunks0 = chunks_view(self.chunks@);
            self.chunks.push(c);
            assert(chunks_view(self.chunks@) =~= chunks0.push(c@));
            self.base_no = self.base_no + nb;
            self.ours_no = self.ours_no + no_;
            self.theirs_no = self.theirs_no + nt;
            self.conflicts = self.conflicts + 1;
            self.section = Section::Common;
            assert(strings_view(self.base@) =~= Seq::<Seq<char>>::empty());
            assert(strings_view(self.ours@) =~= Seq::<Seq<char>>::empty());
            assert(strings_view(self.theirs@) =~= Seq::<Seq<char>>::empty());
            assert(self.view() =~= parse_step(v0, line@, no as int));
            return None;
        }
        let owned = string_of(line);
        match self.section {
            Section::Common => {
                self.common.push(owned);
                assert(strings_view(self.common@) =~= v0.common.push(line@));
            },
            Section::Ours => {
                self.ours.push(owned);
                assert(strings_view(self.ours@) =~= v0.ours.push(line@));
            },
            Section::Base => {
                self.base.push(owned);
                assert(strings_view(self.base@) =~= v0.base.push(line@));
            },
            Section::Theirs => {
                self.theirs.push(owned);
                assert(strings_view(self.theirs@) =~= v0.theirs.push(line@));
            },
        }
        assert(self.view() =~= parse_step(v0, line@, no as int));
        None
    }
}

pub proof fn lemma_parse_failed_persists(lines: Seq<Seq<char>>, i: int)
    requires
        0 <= i <= lines.len(),
        parse_fold(lines.take(i)).failed is Some,
    ensures
        parse_fold(lines).failed == parse_fold(lines.take(i)).failed,
    decreases lines.len() - i,
{
    if i < lines.len() {
        assert(lines.take(i + 1).drop_last() =~= lines.take(i));
        lemma_parse_failed_persists(lines, i + 1);
    } else {
        assert(lines.take(i) =~= lines);
    }
}

proof fn lemma_lines_state_len(s: Seq<char>)
    ensures
        lines_state(s).0.len() + lines_state(s).1.len() <= s.len(),
    decreases s.len(),
{
    if s.len() > 0 {
        lemma_lines_state_len(s.drop_last());
    }
}

/// A text has no more lines than characters.
pub proof fn lemma_str_lines_len(s: Seq<char>)
    ensures
        str_lines(s).len() <= s.len(),
{
    lemma_lines_state_len(s);
}

/// `v[0..n]` as a new vector.
fn prefix_chars(v: &Vec<char>, n: usize) -> (out: Vec<char>)
    requires
        n <= v@.len(),
    ensures
        out@ == v@.subrange(0, n as int),
{
    let mut out: Vec<char> = Vec::new();
    let mut i: usize = 0;
    while i < n
        invariant
            0 <= i <= n <= v@.len(),
            out@ == v@.subrange(0, i as int),
        decreases n - i,
    {
        out.push(v[i]);
        assert(out@ =~= v@.subrange(0, i + 1));
        i = i + 1;
    }
    out
}

/// Parses a file holding git conflict markers back into merge chunks.
///
/// Git already wrote the non-conflicting changes into such a file, so the
/// chunks are stable and conflict chunks only. Both the default (merge) and
/// the diff3 conflict style are read; the branch labels after `<<<<<<<` and
/// `>>>>>>>` are kept. The default style has no base section, so its conflict
/// chunks have an empty base.
pub fn parse_conflict_file(text: &str) -> (r: Result<MergeResult, ConflictParseError>)
    requires
        text@.len() < usize::MAX,
    ensures
        match r {
            Ok(m) => parse_result(text@) == Ok::<ResultView, ConflictParseError>(m@),
            Err(e) => parse_result(text@) == Err::<ResultView, ConflictParseError>(e),
        },
{
    let raw = str_lines_of(text);
    let ghost lines = conflict_lines(text@);
    proof {
        lemma_str_lines_len(text@);
        assert(raw@.map_values(|l: Vec<char>| l@).len() == raw@.len());
    }
    let mut p = Parser {
        chunks: Vec::new(),
        conflicts: 0,
        ours_label: None,
        theirs_label: None,
        base_no: 1,
        ours_no: 1,
        theirs_no: 1,
        common: Vec::new(),
        ours: Vec::new(),
        base: Vec::new(),
        theirs: Vec::new(),
        section: Section::Common,
        conflict_start: 0,
    };
    proof {
        assert(chunks_view(p.chunks@) =~= Seq::<ChunkView>::empty());
        assert(strings_view(p.common@) =~= Seq::<Seq<char>>::empty());
        assert(strings_view(p.ours@) =~= Seq::<Seq<char>>::empty());
        assert(strings_view(p.base@) =~= Seq::<Seq<char>>::empty());
        assert(strings_view(p.theirs@) =~= Seq::<Seq<char>>::empty());
        assert(p.view() =~= parse_start());
        assert(lines.take(0) =~= Seq::<Seq<char>>::empty());
    }
    let mut i: usize = 0;
    while i < raw.len()
        invariant
            raw@.map_values(|l: Vec<char>| l@) == str_lines(text@),
            lines == conflict_lines(text@),
            lines.len() == raw@.len(),
            raw@.len() < usize::MAX,
            0 <= i <= raw@.len(),
            p.view() == parse_fold(lines.take(i as int)),
            p.bounded(i as int),
        decreases raw@.len() - i,
    {
        let hi = trim_end_cr_bound(&raw[i], 0, raw[i].len());
        let line = prefix_chars(&raw[i], hi);
        proof {
            assert(raw@.map_values(|l: Vec<char>| l@)[i as int] == raw@[i as int]@);
            assert(raw@[i as int]@.subrange(0, raw@[i as int]@.len() as int) =~= raw@[i as int]@);
            assert(line@ == lines[i as int]);
            assert(lines.take(i + 1).drop_last() =~= lines.take(i as int));
            assert(lines.take(i + 1).last() == line@);
        }
        match p.step(&line, i + 1) {
            Some(n) => {
                proof {
                    lemma_parse_failed_persists(lines, i + 1);
                }
                return Err(ConflictParseError::Malformed(n));
            },
            None => {},
        }
        i = i + 1;
    }
    assert(lines.take(raw@.len() as int) =~= lines);
    if p.section != Section::Common {
        return Err(ConflictParseError::Malformed(p.conflict_start));
    }
    if p.conflicts == 0 {
        return Err(ConflictParseError::NoMarkers);
    }
    p.flush_common();
    Ok(
        MergeResult {
            chunks: p.chunks,
            conflicts: p.conflicts,
            ours_changes: 0,
            theirs_changes: 0,
            agree: 0,
            ours_label: p.ours_label,
            theirs_label: p.theirs_label,
        },
    )
}

} // verus!
