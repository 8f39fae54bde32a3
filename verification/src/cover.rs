//! Laws of the three-way merge: the chunks cover the base and each side of
//! the file end to end, in order, and their line numbers count along.

use vstd::prelude::*;

use crate::merge::{
    BuildView, ChunkKind, ChunkView, GroupView, ResultView, group_kind, has_side, HunkView, LineOp, build_fold, build_result, build_step,
    clean_all, equal_ops_match, group_hunks_spec, group_wf, groups_wf, lemma_cover_ordered,
    lemma_groups_wf, lemma_merge_sorted_wf, lemma_op_hunks_sorted, merge_sorted, merge_spec,
    lemma_ops_bounds, merge_text_result, op_hunks, ops_cover, push_stable, side_content_spec, side_sorted, side_state,
    split_lines, ParseView, parse_fold, parse_step, parse_result, flush_common_spec, conflict_lines,
};

verus! {

/// The lines of one side of a chunk: 0 base, 1 ours, 2 theirs.
pub open spec fn pick(c: ChunkView, side: int) -> Seq<Seq<char>> {
    if side == 0 {
        c.base
    } else if side == 1 {
        c.ours
    } else {
        c.theirs
    }
}

/// The first line number of one side of a chunk.
pub open spec fn start_of(c: ChunkView, side: int) -> int {
    if side == 0 {
        c.base_start
    } else if side == 1 {
        c.ours_start
    } else {
        c.theirs_start
    }
}

/// The lines of one side of the chunks, one chunk after the other.
pub open spec fn side_lines(cs: Seq<ChunkView>, side: int) -> Seq<Seq<char>>
    decreases cs.len(),
{
    if cs.len() == 0 {
        Seq::empty()
    } else {
        side_lines(cs.drop_last(), side) + pick(cs.last(), side)
    }
}

/// Each chunk knows its position, and its line numbers on every side count
/// the lines of the chunks before it.
pub open spec fn numbered(cs: Seq<ChunkView>) -> bool {
    &&& forall|i: int| 0 <= i < cs.len() ==> (#[trigger] cs[i]).id == i
    &&& forall|i: int, side: int|
        0 <= i < cs.len() && 0 <= side < 3 ==> #[trigger] start_of(cs[i], side) == 1 + side_lines(
            cs.take(i),
            side,
        ).len()
}

/// Appending a chunk numbered after the others keeps the chunks numbered.
proof fn lemma_numbered_push(cs: Seq<ChunkView>, c: ChunkView)
    requires
        numbered(cs),
        c.id == cs.len(),
        forall|side: int| 0 <= side < 3 ==> start_of(c, side) == 1 + #[trigger] side_lines(cs, side).len(),
    ensures
        numbered(cs.push(c)),
{
    let n = cs.push(c);
    assert forall|i: int| 0 <= i < n.len() implies (#[trigger] n[i]).id == i by {
        if i < cs.len() {
            assert(n[i] == cs[i]);
        }
    }
    assert forall|i: int, side: int| 0 <= i < n.len() && 0 <= side < 3 implies #[trigger] start_of(n[i], side)
        == 1 + side_lines(n.take(i), side).len() by {
        if i < cs.len() {
            assert(n.take(i) =~= cs.take(i));
            assert(n[i] == cs[i]);
            assert(start_of(cs[i], side) == 1 + side_lines(cs.take(i), side).len());
        } else {
            assert(n.take(i) =~= cs);
            assert(n[i] == c);
            assert(start_of(c, side) == 1 + side_lines(cs, side).len());
        }
    }
}

/// Numbered chunks, and counters one past each side's lines.
pub open spec fn counted(st: BuildView) -> bool {
    &&& numbered(st.chunks)
    &&& st.base_no == 1 + side_lines(st.chunks, 0).len()
    &&& st.ours_no == 1 + side_lines(st.chunks, 1).len()
    &&& st.theirs_no == 1 + side_lines(st.chunks, 2).len()
}

/// What the chunks built so far hold: numbered chunks, counters one past
/// each side's lines, and the base up to the position reached.
pub open spec fn build_inv(base: Seq<Seq<char>>, st: BuildView) -> bool {
    &&& numbered(st.chunks)
    &&& st.base_no == 1 + side_lines(st.chunks, 0).len()
    &&& st.ours_no == 1 + side_lines(st.chunks, 1).len()
    &&& st.theirs_no == 1 + side_lines(st.chunks, 2).len()
    &&& 0 <= st.pos <= base.len()
    &&& side_lines(st.chunks, 0) == base.take(st.pos)
}

/// Adding a chunk adds its lines on every side.
proof fn lemma_side_lines_push(cs: Seq<ChunkView>, c: ChunkView, side: int)
    ensures
        side_lines(cs.push(c), side) == side_lines(cs, side) + pick(c, side),
{
    assert(cs.push(c).drop_last() =~= cs);
}

/// A stable chunk for `base[st.pos..to]` keeps the invariant, reaching `to`.
proof fn lemma_push_stable(base: Seq<Seq<char>>, st: BuildView, to: int)
    requires
        build_inv(base, st),
        st.pos <= to <= base.len(),
    ensures
        counted(push_stable(st, base.subrange(st.pos, to))),
        push_stable(st, base.subrange(st.pos, to)).pos == st.pos,
        side_lines(push_stable(st, base.subrange(st.pos, to)).chunks, 0) == base.take(to),
{
    let lines = base.subrange(st.pos, to);
    let n = push_stable(st, lines);
    let c = n.chunks.last();
    assert(n.chunks == st.chunks.push(c));
    lemma_numbered_push(st.chunks, c);
    lemma_side_lines_push(st.chunks, c, 0);
    lemma_side_lines_push(st.chunks, c, 1);
    lemma_side_lines_push(st.chunks, c, 2);
    assert(base.take(st.pos) + lines =~= base.take(to));
}

/// Well-formed groups stay well formed without their last one.
proof fn lemma_groups_wf_prefix(gs: Seq<GroupView>, base_len: int)
    requires
        groups_wf(gs, base_len),
        gs.len() > 0,
    ensures
        groups_wf(gs.drop_last(), base_len),
{
    let p = gs.drop_last();
    assert forall|i: int| 0 <= i < p.len() implies group_wf(#[trigger] p[i], base_len) by {
        assert(p[i] == gs[i]);
    }
    assert forall|i: int, j: int| 0 <= i < j < p.len() implies #[trigger] p[i].hi <= #[trigger] p[j].lo by {
        assert(p[i] == gs[i] && p[j] == gs[j]);
    }
}

/// Building over well-formed groups keeps the invariant and reaches the end
/// of the last group.
pub proof fn lemma_build_fold(base: Seq<Seq<char>>, gs: Seq<GroupView>)
    requires
        groups_wf(gs, base.len() as int),
    ensures
        build_inv(base, build_fold(base, gs)),
        build_fold(base, gs).pos == if gs.len() == 0 {
            0
        } else {
            gs.last().hi
        },
        build_fold(base, gs).chunks.len() >= gs.len(),
    decreases gs.len(),
{
    if gs.len() == 0 {
        let st = build_fold(base, gs);
        assert(base.take(0) =~= Seq::<Seq<char>>::empty());
        assert(side_lines(st.chunks, 0) =~= Seq::<Seq<char>>::empty());
    } else {
        lemma_groups_wf_prefix(gs, base.len() as int);
        lemma_build_fold(base, gs.drop_last());
        let st = build_fold(base, gs.drop_last());
        let g = gs.last();
        assert(group_wf(gs[gs.len() - 1], base.len() as int));
        assert(g == gs[gs.len() - 1]);
        if gs.len() > 1 {
            assert(gs.drop_last().last() == gs[gs.len() - 2]);
            assert(gs[gs.len() - 2].hi <= gs[gs.len() - 1].lo);
        }
        assert(st.pos <= g.lo);
        let st1 = if g.lo > st.pos {
            push_stable(st, base.subrange(st.pos, g.lo))
        } else {
            st
        };
        if g.lo > st.pos {
            lemma_push_stable(base, st, g.lo);
        } else {
            assert(counted(st1));
        }
        assert(counted(st1));
        assert(side_lines(st1.chunks, 0) == base.take(g.lo));
        let n = build_step(base, st, g);
        assert(n == build_fold(base, gs));
        let c = n.chunks.last();
        assert(n.chunks == st1.chunks.push(c));
        assert forall|side: int| 0 <= side < 3 implies start_of(c, side) == 1 + #[trigger] side_lines(
            st1.chunks,
            side,
        ).len() by {
        }
        lemma_numbered_push(st1.chunks, c);
        lemma_side_lines_push(st1.chunks, c, 0);
        lemma_side_lines_push(st1.chunks, c, 1);
        lemma_side_lines_push(st1.chunks, c, 2);
        assert(base.take(g.lo) + base.subrange(g.lo, g.hi) =~= base.take(g.hi));
    }
}

/// The chunks of a merge are numbered in file order and their base lines,
/// one chunk after the other, are the whole base.
pub proof fn law_chunks_cover_base(base: Seq<Seq<char>>, gs: Seq<GroupView>)
    requires
        groups_wf(gs, base.len() as int),
    ensures
        numbered(build_result(base, gs).chunks),
        side_lines(build_result(base, gs).chunks, 0) == base,
{
    lemma_build_fold(base, gs);
    let st = build_fold(base, gs);
    if st.pos < base.len() {
        lemma_push_stable(base, st, base.len() as int);
        assert(base.take(base.len() as int) =~= base);
    } else {
        assert(base.take(st.pos) =~= base);
    }
}

/// One hunk applied to (lines produced, base position reached): the base up
/// to its start, then its lines; hunks of the other side change nothing.
pub open spec fn apply_step(base: Seq<Seq<char>>, st: (Seq<Seq<char>>, int), h: HunkView, theirs: bool) -> (
    Seq<Seq<char>>,
    int,
) {
    if h.theirs == theirs {
        (st.0 + base.subrange(st.1, h.start) + h.lines, h.end)
    } else {
        st
    }
}

/// The hunks applied one after the other, from a state.
pub open spec fn apply_run(base: Seq<Seq<char>>, st: (Seq<Seq<char>>, int), hs: Seq<HunkView>, theirs: bool) -> (
    Seq<Seq<char>>,
    int,
)
    decreases hs.len(),
{
    if hs.len() == 0 {
        st
    } else {
        apply_run(base, apply_step(base, st, hs[0], theirs), hs.drop_first(), theirs)
    }
}

/// One side's text: the base with that side's hunks applied.
pub open spec fn apply_hunks(base: Seq<Seq<char>>, hs: Seq<HunkView>, theirs: bool) -> Seq<Seq<char>> {
    let (o, p) = apply_run(base, (Seq::empty(), 0), hs, theirs);
    o + base.subrange(p, base.len() as int)
}

/// The members of the groups, group after group.
pub open spec fn flat(gs: Seq<GroupView>) -> Seq<HunkView>
    decreases gs.len(),
{
    if gs.len() == 0 {
        Seq::empty()
    } else {
        flat(gs.drop_last()) + gs.last().members
    }
}

/// Running one more hunk at the end.
proof fn lemma_run_push(base: Seq<Seq<char>>, st: (Seq<Seq<char>>, int), hs: Seq<HunkView>, x: HunkView, theirs: bool)
    ensures
        apply_run(base, st, hs.push(x), theirs) == apply_step(base, apply_run(base, st, hs, theirs), x, theirs),
    decreases hs.len(),
{
    if hs.len() == 0 {
        assert(hs.push(x).drop_first() =~= Seq::<HunkView>::empty());
        assert(hs.push(x)[0] == x);
        let s1 = apply_step(base, st, x, theirs);
        assert(apply_run(base, s1, Seq::<HunkView>::empty(), theirs) == s1);
        assert(apply_run(base, st, hs, theirs) == st);
    } else {
        assert(hs.push(x)[0] == hs[0]);
        assert(hs.push(x).drop_first() =~= hs.drop_first().push(x));
        lemma_run_push(base, apply_step(base, st, hs[0], theirs), hs.drop_first(), x, theirs);
    }
}

/// Running a concatenation runs its parts in turn.
proof fn lemma_run_concat(base: Seq<Seq<char>>, st: (Seq<Seq<char>>, int), a: Seq<HunkView>, b: Seq<HunkView>, theirs: bool)
    ensures
        apply_run(base, st, a + b, theirs) == apply_run(base, apply_run(base, st, a, theirs), b, theirs),
    decreases a.len(),
{
    if a.len() == 0 {
        assert(a + b =~= b);
    } else {
        assert((a + b)[0] == a[0]);
        assert((a + b).drop_first() =~= a.drop_first() + b);
        lemma_run_concat(base, apply_step(base, st, a[0], theirs), a.drop_first(), b, theirs);
    }
}

/// A group's side scan is a run from the group's start.
proof fn lemma_side_state_run(base: Seq<Seq<char>>, lo: int, ms: Seq<HunkView>, theirs: bool)
    ensures
        side_state(base, lo, ms, theirs) == apply_run(base, (Seq::empty(), lo), ms, theirs),
    decreases ms.len(),
{
    if ms.len() > 0 {
        lemma_side_state_run(base, lo, ms.drop_last(), theirs);
        lemma_run_push(base, (Seq::empty(), lo), ms.drop_last(), ms.last(), theirs);
        assert(ms.drop_last().push(ms.last()) =~= ms);
    }
}

/// Grouping keeps the hunks and their order.
proof fn lemma_flat_groups(m: Seq<HunkView>)
    ensures
        flat(group_hunks_spec(m)) == m,
    decreases m.len(),
{
    if m.len() > 0 {
        lemma_flat_groups(m.drop_last());
        let g = group_hunks_spec(m.drop_last());
        let h = m.last();
        let gm = group_hunks_spec(m);
        if g.len() > 0 && crate::merge::collides(g.last().lo, g.last().hi, h.start, h.end) {
            assert(gm.drop_last() =~= g.drop_last());
            assert(gm.last().members == g.last().members.push(h));
            assert(flat(g) == flat(g.drop_last()) + g.last().members);
            assert(flat(gm) == flat(gm.drop_last()) + gm.last().members);
            assert(flat(gm.drop_last()) == flat(g.drop_last()));
            assert(flat(g) == m.drop_last());
            assert(flat(gm) =~= flat(g).push(h));
            assert(m =~= m.drop_last().push(h));
        } else {
            assert(gm.drop_last() =~= g);
            assert(flat(gm) == flat(g) + seq![h]);
            assert(flat(gm) =~= m);
        }
    }
}

/// Scanning a group's members from an earlier state produces, up to any
/// point `x` at or after them, what the earlier state had, the base up to
/// the group, and the group's own side content.
proof fn lemma_group_run(
    base: Seq<Seq<char>>,
    o: Seq<Seq<char>>,
    p: int,
    lo: int,
    ms: Seq<HunkView>,
    theirs: bool,
    x: int,
)
    requires
        0 <= p <= lo <= x <= base.len(),
        forall|k: int| 0 <= k < ms.len() && (#[trigger] ms[k]).theirs == theirs ==> lo <= ms[k].start <= ms[k].end <= x,
        forall|k: int, l: int|
            0 <= k < l < ms.len() && (#[trigger] ms[k]).theirs == theirs && (#[trigger] ms[l]).theirs == theirs
                ==> ms[k].end <= ms[l].start,
    ensures
        ({
            let (o1, p1) = apply_run(base, (o, p), ms, theirs);
            let (o2, p2) = apply_run(base, (Seq::empty(), lo), ms, theirs);
            &&& p <= p1 <= x
            &&& lo <= p2 <= x
            &&& o1 + base.subrange(p1, x) == o + base.subrange(p, lo) + o2 + base.subrange(p2, x)
        }),
    decreases ms.len(),
{
    if ms.len() == 0 {
        assert(base.subrange(p, x) =~= base.subrange(p, lo) + base.subrange(lo, x));
        assert(o + base.subrange(p, x) =~= o + base.subrange(p, lo) + Seq::<Seq<char>>::empty() + base.subrange(lo, x));
    } else {
        let pre = ms.drop_last();
        let m = ms.last();
        assert(ms[ms.len() - 1] == m);
        lemma_run_push(base, (o, p), pre, m, theirs);
        lemma_run_push(base, (Seq::empty(), lo), pre, m, theirs);
        assert(pre.push(m) =~= ms);
        if m.theirs == theirs {
            assert forall|k: int| 0 <= k < pre.len() && (#[trigger] pre[k]).theirs == theirs implies lo <= pre[k].start
                <= pre[k].end <= m.start by {
                assert(pre[k] == ms[k]);
            }
            assert forall|k: int, l: int|
                0 <= k < l < pre.len() && (#[trigger] pre[k]).theirs == theirs && (#[trigger] pre[l]).theirs == theirs
                    implies pre[k].end <= pre[l].start by {
                assert(pre[k] == ms[k] && pre[l] == ms[l]);
            }
            lemma_group_run(base, o, p, lo, pre, theirs, m.start);
            let (o1, p1) = apply_run(base, (o, p), pre, theirs);
            let (o2, p2) = apply_run(base, (Seq::empty(), lo), pre, theirs);
            assert(o1 + base.subrange(p1, m.start) + m.lines + base.subrange(m.end, x) =~= o + base.subrange(p, lo) + (o2
                + base.subrange(p2, m.start) + m.lines) + base.subrange(m.end, x));
        } else {
            assert forall|k: int| 0 <= k < pre.len() && (#[trigger] pre[k]).theirs == theirs implies lo <= pre[k].start
                <= pre[k].end <= x by {
                assert(pre[k] == ms[k]);
            }
            assert forall|k: int, l: int|
                0 <= k < l < pre.len() && (#[trigger] pre[k]).theirs == theirs && (#[trigger] pre[l]).theirs == theirs
                    implies pre[k].end <= pre[l].start by {
                assert(pre[k] == ms[k] && pre[l] == ms[l]);
            }
            lemma_group_run(base, o, p, lo, pre, theirs, x);
        }
    }
}

/// The side number of a hunk side.
pub open spec fn side_no(theirs: bool) -> int {
    if theirs {
        2
    } else {
        1
    }
}

/// Building over well-formed groups, one side's lines are the base with
/// that side's hunks applied, up to the position reached.
pub proof fn lemma_build_side(base: Seq<Seq<char>>, gs: Seq<GroupView>, theirs: bool)
    requires
        groups_wf(gs, base.len() as int),
    ensures
        ({
            let st = build_fold(base, gs);
            let (o, p) = apply_run(base, (Seq::empty(), 0), flat(gs), theirs);
            &&& 0 <= p <= st.pos
            &&& side_lines(st.chunks, side_no(theirs)) == o + base.subrange(p, st.pos)
        }),
    decreases gs.len(),
{
    lemma_build_fold(base, gs);
    if gs.len() == 0 {
        let st = build_fold(base, gs);
        assert(side_lines(st.chunks, side_no(theirs)) =~= Seq::<Seq<char>>::empty());
        assert(Seq::<Seq<char>>::empty() + base.subrange(0, 0) =~= Seq::<Seq<char>>::empty());
    } else {
        lemma_groups_wf_prefix(gs, base.len() as int);
        lemma_build_side(base, gs.drop_last(), theirs);
        lemma_build_fold(base, gs.drop_last());
        let st = build_fold(base, gs.drop_last());
        let g = gs.last();
        assert(group_wf(gs[gs.len() - 1], base.len() as int));
        assert(g == gs[gs.len() - 1]);
        if gs.len() > 1 {
            assert(gs.drop_last().last() == gs[gs.len() - 2]);
            assert(gs[gs.len() - 2].hi <= gs[gs.len() - 1].lo);
        }
        let (o, p) = apply_run(base, (Seq::empty(), 0), flat(gs.drop_last()), theirs);
        let sn = side_no(theirs);
        let st1 = if g.lo > st.pos {
            push_stable(st, base.subrange(st.pos, g.lo))
        } else {
            st
        };
        if g.lo > st.pos {
            let c1 = st1.chunks.last();
            assert(st1.chunks == st.chunks.push(c1));
            lemma_side_lines_push(st.chunks, c1, sn);
        }
        assert(side_lines(st1.chunks, sn) =~= o + base.subrange(p, g.lo)) by {
            assert(base.subrange(p, g.lo) =~= base.subrange(p, st.pos) + base.subrange(st.pos, g.lo));
        }
        let n = build_step(base, st, g);
        let c = n.chunks.last();
        assert(n.chunks == st1.chunks.push(c));
        lemma_side_lines_push(st1.chunks, c, sn);
        assert(pick(c, sn) == side_content_spec(base, g, theirs));
        lemma_side_state_run(base, g.lo, g.members, theirs);
        lemma_run_concat(base, (Seq::empty(), 0), flat(gs.drop_last()), g.members, theirs);
        assert(flat(gs) == flat(gs.drop_last()) + g.members);
        assert forall|k: int| 0 <= k < g.members.len() && (#[trigger] g.members[k]).theirs == theirs implies g.lo
            <= g.members[k].start <= g.members[k].end <= g.hi by {
        }
        lemma_group_run(base, o, p, g.lo, g.members, theirs, g.hi);
        let (o2, p2) = apply_run(base, (Seq::empty(), g.lo), g.members, theirs);
        assert(side_content_spec(base, g, theirs) == o2 + base.subrange(p2, g.hi));
    }
}

/// Each side of the merged chunks is the base with that side's hunks applied.
pub proof fn lemma_result_sides(base: Seq<Seq<char>>, m: Seq<HunkView>, theirs: bool)
    requires
        groups_wf(group_hunks_spec(m), base.len() as int),
    ensures
        side_lines(build_result(base, group_hunks_spec(m)).chunks, side_no(theirs)) == apply_hunks(base, m, theirs),
{
    let gs = group_hunks_spec(m);
    lemma_build_side(base, gs, theirs);
    lemma_build_fold(base, gs);
    lemma_flat_groups(m);
    let st = build_fold(base, gs);
    let (o, p) = apply_run(base, (Seq::empty(), 0), m, theirs);
    if st.pos < base.len() {
        let n = push_stable(st, base.subrange(st.pos, base.len() as int));
        let c = n.chunks.last();
        assert(n.chunks == st.chunks.push(c));
        lemma_side_lines_push(st.chunks, c, side_no(theirs));
        assert(base.subrange(p, st.pos) + base.subrange(st.pos, base.len() as int) =~= base.subrange(
            p,
            base.len() as int,
        ));
    }
}

/// Hunks of the other side pass through a run unnoticed: the merged list
/// of both sides gives each side its own hunks' result.
proof fn lemma_run_merge(
    base: Seq<Seq<char>>,
    st: (Seq<Seq<char>>, int),
    a: Seq<HunkView>,
    b: Seq<HunkView>,
)
    requires
        forall|k: int| 0 <= k < a.len() ==> !(#[trigger] a[k]).theirs,
        forall|k: int| 0 <= k < b.len() ==> (#[trigger] b[k]).theirs,
    ensures
        apply_run(base, st, merge_sorted(a, b), false) == apply_run(base, st, a, false),
        apply_run(base, st, merge_sorted(a, b), true) == apply_run(base, st, b, true),
    decreases a.len() + b.len(),
{
    if a.len() == 0 {
        lemma_run_skips(base, st, b, false);
    } else if b.len() == 0 {
        lemma_run_skips(base, st, a, true);
    } else {
        let m = merge_sorted(a, b);
        assert(!a[0].theirs && b[0].theirs);
        if crate::merge::key_le(a[0], b[0]) {
            assert(m == seq![a[0]] + merge_sorted(a.drop_first(), b));
            assert(m[0] == a[0]);
            assert(m.drop_first() =~= merge_sorted(a.drop_first(), b));
            assert forall|k: int| 0 <= k < a.drop_first().len() implies !(#[trigger] a.drop_first()[k]).theirs by {
                assert(a.drop_first()[k] == a[k + 1]);
            }
            lemma_run_merge(base, apply_step(base, st, a[0], false), a.drop_first(), b);
            lemma_run_merge(base, apply_step(base, st, a[0], true), a.drop_first(), b);
        } else {
            assert(m == seq![b[0]] + merge_sorted(a, b.drop_first()));
            assert(m[0] == b[0]);
            assert(m.drop_first() =~= merge_sorted(a, b.drop_first()));
            assert forall|k: int| 0 <= k < b.drop_first().len() implies (#[trigger] b.drop_first()[k]).theirs by {
                assert(b.drop_first()[k] == b[k + 1]);
            }
            lemma_run_merge(base, apply_step(base, st, b[0], false), a, b.drop_first());
            lemma_run_merge(base, apply_step(base, st, b[0], true), a, b.drop_first());
        }
    }
}

/// A run over hunks all of the other side changes nothing.
proof fn lemma_run_skips(base: Seq<Seq<char>>, st: (Seq<Seq<char>>, int), hs: Seq<HunkView>, theirs: bool)
    requires
        forall|k: int| 0 <= k < hs.len() ==> (#[trigger] hs[k]).theirs != theirs,
    ensures
        apply_run(base, st, hs, theirs) == st,
    decreases hs.len(),
{
    if hs.len() > 0 {
        assert(hs[0].theirs != theirs);
        assert forall|k: int| 0 <= k < hs.drop_first().len() implies (#[trigger] hs.drop_first()[k]).theirs != theirs by {
            assert(hs.drop_first()[k] == hs[k + 1]);
        }
        lemma_run_skips(base, st, hs.drop_first(), theirs);
    }
}

/// End of the first `k` ops in the old and new sequences.
pub open spec fn ops_end(ops: Seq<LineOp>, k: int, new_side: bool) -> int {
    if k <= 0 {
        0
    } else if new_side {
        ops[k - 1].new_end as int
    } else {
        ops[k - 1].old_end as int
    }
}

/// Applying the hunks of the first `k` ops of a diff to the old lines gives
/// the new lines up to where those ops end.
proof fn lemma_diff_prefix(old: Seq<Seq<char>>, new: Seq<Seq<char>>, ops: Seq<LineOp>, k: int, theirs: bool)
    requires
        ops_cover(ops, old.len() as int, new.len() as int),
        equal_ops_match(ops, old, new),
        0 <= k <= ops.len(),
    ensures
        ({
            let (o, p) = apply_run(clean_all(old), (Seq::empty(), 0), op_hunks(ops.take(k), new, theirs), theirs);
            &&& 0 <= p <= ops_end(ops, k, false)
            &&& o + clean_all(old).subrange(p, ops_end(ops, k, false)) == clean_all(new).take(ops_end(ops, k, true))
        }),
    decreases k,
{
    let cb = clean_all(old);
    let cn = clean_all(new);
    lemma_ops_bounds(ops, old.len() as int, new.len() as int);
    if k == 0 {
        assert(ops.take(0) =~= Seq::<LineOp>::empty());
        assert(cn.take(0) =~= Seq::<Seq<char>>::empty());
        assert(Seq::<Seq<char>>::empty() + cb.subrange(0, 0) =~= Seq::<Seq<char>>::empty());
    } else {
        lemma_diff_prefix(old, new, ops, k - 1, theirs);
        let op = ops[k - 1];
        let hs = op_hunks(ops.take(k - 1), new, theirs);
        let (o, p) = apply_run(cb, (Seq::empty(), 0), hs, theirs);
        assert(ops.take(k).drop_last() =~= ops.take(k - 1));
        assert(ops.take(k).last() == op);
        assert(op.old_start == ops_end(ops, k - 1, false) && op.new_start == ops_end(ops, k - 1, true)) by {
            if k > 1 {
                let j = k - 2;
                assert(0 <= j < ops.len() - 1);
                assert(ops[j + 1].old_start == ops[j].old_end && ops[j + 1].new_start == ops[j].new_end);
                assert(j + 1 == k - 1);
            }
        }
        assert(0 <= op.old_start <= op.old_end <= old.len() && 0 <= op.new_start <= op.new_end <= new.len());
        if op.equal {
            assert(op_hunks(ops.take(k), new, theirs) == hs);
            assert(cb.subrange(op.old_start as int, op.old_end as int) =~= cn.subrange(
                op.new_start as int,
                op.new_end as int,
            )) by {
                let lo = cb.subrange(op.old_start as int, op.old_end as int);
                let ln = cn.subrange(op.new_start as int, op.new_end as int);
                assert forall|j: int| 0 <= j < op.old_end - op.old_start implies #[trigger] lo[j] == ln[j] by {
                    assert(old[op.old_start + j] == new[op.new_start + j]);
                    assert(lo[j] == cb[op.old_start + j]);
                    assert(ln[j] == cn[op.new_start + j]);
                }
            }
            assert(o + cb.subrange(p, op.old_end as int) =~= (o + cb.subrange(p, op.old_start as int)) + cb.subrange(
                op.old_start as int,
                op.old_end as int,
            ));
            assert(cn.take(op.new_end as int) =~= cn.take(op.new_start as int) + cn.subrange(
                op.new_start as int,
                op.new_end as int,
            ));
        } else {
            let h = HunkView {
                start: op.old_start as int,
                end: op.old_end as int,
                lines: clean_all(new.subrange(op.new_start as int, op.new_end as int)),
                theirs,
            };
            assert(op_hunks(ops.take(k), new, theirs) == hs.push(h));
            lemma_run_push(cb, (Seq::empty(), 0), hs, h, theirs);
            assert(h.lines =~= cn.subrange(op.new_start as int, op.new_end as int));
            assert(o + cb.subrange(p, op.old_start as int) + h.lines + cb.subrange(op.old_end as int, op.old_end as int)
                =~= cn.take(op.new_end as int)) by {
                assert(cn.take(op.new_end as int) =~= cn.take(op.new_start as int) + cn.subrange(
                    op.new_start as int,
                    op.new_end as int,
                ));
            }
        }
    }
}

/// Applying the hunks of a diff of `old` and `new` to the old lines gives
/// the new lines (line endings removed on both).
pub proof fn lemma_diff_applies(old: Seq<Seq<char>>, new: Seq<Seq<char>>, ops: Seq<LineOp>, theirs: bool)
    requires
        ops_cover(ops, old.len() as int, new.len() as int),
        equal_ops_match(ops, old, new),
    ensures
        apply_hunks(clean_all(old), op_hunks(ops, new, theirs), theirs) == clean_all(new),
{
    lemma_diff_prefix(old, new, ops, ops.len() as int, theirs);
    assert(ops.take(ops.len() as int) =~= ops);
    let cn = clean_all(new);
    if ops.len() == 0 {
        assert(cn =~= Seq::<Seq<char>>::empty());
    } else {
        assert(cn.take(new.len() as int) =~= cn);
    }
}

/// The three-way merge of two diffs of one base covers each side end to
/// end: the chunks, numbered in file order, hold the base, the local and
/// the remote lines, one chunk after the other, and each chunk's line
/// numbers count the lines before it on its side.
pub proof fn law_merge_covers_every_side(
    base: Seq<Seq<char>>,
    ours_ops: Seq<LineOp>,
    ours_new: Seq<Seq<char>>,
    theirs_ops: Seq<LineOp>,
    theirs_new: Seq<Seq<char>>,
)
    requires
        ops_cover(ours_ops, base.len() as int, ours_new.len() as int),
        equal_ops_match(ours_ops, base, ours_new),
        ops_cover(theirs_ops, base.len() as int, theirs_new.len() as int),
        equal_ops_match(theirs_ops, base, theirs_new),
    ensures
        ({
            let r = merge_spec(base, ours_ops, ours_new, theirs_ops, theirs_new);
            &&& numbered(r.chunks)
            &&& side_lines(r.chunks, 0) == clean_all(base)
            &&& side_lines(r.chunks, 1) == clean_all(ours_new)
            &&& side_lines(r.chunks, 2) == clean_all(theirs_new)
        }),
{
    let blen = base.len() as int;
    let a = op_hunks(ours_ops, ours_new, false);
    let b = op_hunks(theirs_ops, theirs_new, true);
    lemma_cover_ordered(ours_ops, blen, ours_new.len() as int);
    lemma_cover_ordered(theirs_ops, blen, theirs_new.len() as int);
    lemma_op_hunks_sorted(ours_ops, ours_new, blen, false);
    lemma_op_hunks_sorted(theirs_ops, theirs_new, blen, true);
    lemma_merge_sorted_wf(a, b, blen);
    lemma_groups_wf(merge_sorted(a, b), blen);
    let cb = clean_all(base);
    assert(cb.len() == blen);
    let gs = group_hunks_spec(merge_sorted(a, b));
    law_chunks_cover_base(cb, gs);
    lemma_result_sides(cb, merge_sorted(a, b), false);
    lemma_result_sides(cb, merge_sorted(a, b), true);
    assert(forall|k: int| 0 <= k < a.len() ==> !(#[trigger] a[k]).theirs);
    assert(forall|k: int| 0 <= k < b.len() ==> (#[trigger] b[k]).theirs);
    lemma_run_merge(cb, (Seq::empty(), 0), a, b);
    lemma_diff_applies(base, ours_new, ours_ops, false);
    lemma_diff_applies(base, theirs_new, theirs_ops, true);
}

/// Merging three texts covers each of them end to end: the chunks hold,
/// one after the other, the lines of the base, of the local text and of
/// the remote text (line endings removed), and their line numbers count
/// along each side.
pub proof fn law_merge_text_covers(base: Seq<char>, ours: Seq<char>, theirs: Seq<char>, r: crate::merge::ResultView)
    requires
        merge_text_result(base, ours, theirs, r),
    ensures
        numbered(r.chunks),
        side_lines(r.chunks, 0) == clean_all(split_lines(base)),
        side_lines(r.chunks, 1) == clean_all(split_lines(ours)),
        side_lines(r.chunks, 2) == clean_all(split_lines(theirs)),
{
    let (o, t) = choose|o: Seq<LineOp>, t: Seq<LineOp>|
        {
            &&& ops_cover(o, split_lines(base).len() as int, split_lines(ours).len() as int)
            &&& equal_ops_match(o, split_lines(base), split_lines(ours))
            &&& ops_cover(t, split_lines(base).len() as int, split_lines(theirs).len() as int)
            &&& equal_ops_match(t, split_lines(base), split_lines(theirs))
            &&& r == merge_spec(split_lines(base), o, split_lines(ours), t, split_lines(theirs))
        };
    law_merge_covers_every_side(split_lines(base), o, split_lines(ours), t, split_lines(theirs));
}

/// What a chunk's kind says of its sides: a stable chunk is the same on all
/// three; a one-sided change leaves the other side at the base; an agreeing
/// change is the same on both sides; a conflict differs between them.
pub open spec fn kind_ok(c: ChunkView) -> bool {
    match c.kind {
        ChunkKind::Stable => c.ours == c.base && c.theirs == c.base,
        ChunkKind::Ours => c.theirs == c.base,
        ChunkKind::Theirs => c.ours == c.base,
        ChunkKind::Agree => c.ours == c.theirs,
        ChunkKind::Conflict => c.ours != c.theirs,
    }
}

/// How many chunks have the kind.
pub open spec fn count_kind(cs: Seq<ChunkView>, k: ChunkKind) -> int
    decreases cs.len(),
{
    if cs.len() == 0 {
        0
    } else {
        count_kind(cs.drop_last(), k) + if cs.last().kind == k {
            1int
        } else {
            0
        }
    }
}

/// Every chunk's kind agrees with its sides, and the counters count kinds.
pub open spec fn kinds_inv(st: BuildView) -> bool {
    &&& forall|i: int| 0 <= i < st.chunks.len() ==> kind_ok(#[trigger] st.chunks[i])
    &&& st.conflicts == count_kind(st.chunks, ChunkKind::Conflict)
    &&& st.ours_changes == count_kind(st.chunks, ChunkKind::Ours)
    &&& st.theirs_changes == count_kind(st.chunks, ChunkKind::Theirs)
    &&& st.agree == count_kind(st.chunks, ChunkKind::Agree)
}

/// Appending a chunk whose kind agrees with its sides keeps `kinds_inv`
/// when the counters move with it.
proof fn lemma_kinds_push(cs: Seq<ChunkView>, c: ChunkView)
    requires
        forall|i: int| 0 <= i < cs.len() ==> kind_ok(#[trigger] cs[i]),
        kind_ok(c),
    ensures
        forall|i: int| 0 <= i < cs.push(c).len() ==> kind_ok(#[trigger] cs.push(c)[i]),
        forall|k: ChunkKind| #[trigger] count_kind(cs.push(c), k) == count_kind(cs, k) + if c.kind == k {
            1int
        } else {
            0
        },
{
    assert(cs.push(c).drop_last() =~= cs);
    assert forall|i: int| 0 <= i < cs.push(c).len() implies kind_ok(#[trigger] cs.push(c)[i]) by {
        if i < cs.len() {
            assert(cs.push(c)[i] == cs[i]);
        }
    }
}

/// A group's side with no hunks of its own is the base over the group.
proof fn lemma_side_without_hunks(base: Seq<Seq<char>>, g: GroupView, theirs: bool)
    requires
        !has_side(g.members, theirs),
        0 <= g.lo <= g.hi <= base.len(),
    ensures
        side_content_spec(base, g, theirs) == base.subrange(g.lo, g.hi),
{
    lemma_side_state_run(base, g.lo, g.members, theirs);
    assert forall|k: int| 0 <= k < g.members.len() implies (#[trigger] g.members[k]).theirs != theirs by {
    }
    lemma_run_skips(base, (Seq::empty(), g.lo), g.members, theirs);
    assert(Seq::<Seq<char>>::empty() + base.subrange(g.lo, g.hi) =~= base.subrange(g.lo, g.hi));
}

/// Building over well-formed groups, every chunk's kind agrees with its
/// sides and the counters count the kinds.
proof fn lemma_build_kinds(base: Seq<Seq<char>>, gs: Seq<GroupView>)
    requires
        groups_wf(gs, base.len() as int),
    ensures
        kinds_inv(build_fold(base, gs)),
    decreases gs.len(),
{
    if gs.len() > 0 {
        lemma_groups_wf_prefix(gs, base.len() as int);
        lemma_build_kinds(base, gs.drop_last());
        lemma_build_fold(base, gs.drop_last());
        let st = build_fold(base, gs.drop_last());
        let g = gs.last();
        assert(group_wf(gs[gs.len() - 1], base.len() as int));
        assert(g == gs[gs.len() - 1]);
        let st1 = if g.lo > st.pos {
            push_stable(st, base.subrange(st.pos, g.lo))
        } else {
            st
        };
        if g.lo > st.pos {
            let c1 = st1.chunks.last();
            assert(st1.chunks == st.chunks.push(c1));
            lemma_kinds_push(st.chunks, c1);
        }
        assert(kinds_inv(st1));
        let n = build_step(base, st, g);
        let c = n.chunks.last();
        assert(n.chunks == st1.chunks.push(c));
        let o = side_content_spec(base, g, false);
        let t = side_content_spec(base, g, true);
        if !has_side(g.members, false) {
            lemma_side_without_hunks(base, g, false);
        }
        if !has_side(g.members, true) {
            lemma_side_without_hunks(base, g, true);
        }
        assert(c.kind == group_kind(g, o, t));
        assert(kind_ok(c));
        lemma_kinds_push(st1.chunks, c);
        assert(count_kind(n.chunks, ChunkKind::Conflict) == count_kind(st1.chunks, ChunkKind::Conflict) + if c.kind
            == ChunkKind::Conflict {
            1int
        } else {
            0
        });
        assert(count_kind(n.chunks, ChunkKind::Ours) == count_kind(st1.chunks, ChunkKind::Ours) + if c.kind
            == ChunkKind::Ours {
            1int
        } else {
            0
        });
        assert(count_kind(n.chunks, ChunkKind::Theirs) == count_kind(st1.chunks, ChunkKind::Theirs) + if c.kind
            == ChunkKind::Theirs {
            1int
        } else {
            0
        });
        assert(count_kind(n.chunks, ChunkKind::Agree) == count_kind(st1.chunks, ChunkKind::Agree) + if c.kind
            == ChunkKind::Agree {
            1int
        } else {
            0
        });
    }
}

/// In a merge result every chunk's kind says what its sides hold (stable:
/// all three equal; one-sided: the other side is the base; agreeing: both
/// sides equal; conflicting: the sides differ), and the counts of
/// conflicts, one-sided and agreeing changes count those chunks.
pub proof fn law_merge_kinds_and_counts(base: Seq<Seq<char>>, gs: Seq<GroupView>)
    requires
        groups_wf(gs, base.len() as int),
    ensures
        forall|i: int|
            0 <= i < build_result(base, gs).chunks.len() ==> kind_ok(#[trigger] build_result(base, gs).chunks[i]),
        result_counts(build_result(base, gs)),
{
    lemma_build_kinds(base, gs);
    lemma_build_fold(base, gs);
    let st = build_fold(base, gs);
    if st.pos < base.len() {
        let n = push_stable(st, base.subrange(st.pos, base.len() as int));
        let c = n.chunks.last();
        assert(n.chunks == st.chunks.push(c));
        lemma_kinds_push(st.chunks, c);
        assert(count_kind(n.chunks, ChunkKind::Conflict) == count_kind(st.chunks, ChunkKind::Conflict));
        assert(count_kind(n.chunks, ChunkKind::Ours) == count_kind(st.chunks, ChunkKind::Ours));
        assert(count_kind(n.chunks, ChunkKind::Theirs) == count_kind(st.chunks, ChunkKind::Theirs));
        assert(count_kind(n.chunks, ChunkKind::Agree) == count_kind(st.chunks, ChunkKind::Agree));
    }
}

/// The counts of a result count its chunks of each kind.
pub open spec fn result_counts(r: ResultView) -> bool {
    &&& r.conflicts == count_kind(r.chunks, ChunkKind::Conflict)
    &&& r.ours_changes == count_kind(r.chunks, ChunkKind::Ours)
    &&& r.theirs_changes == count_kind(r.chunks, ChunkKind::Theirs)
    &&& r.agree == count_kind(r.chunks, ChunkKind::Agree)
}

/// Merging three texts gives chunks whose kinds say what their sides hold,
/// with counts that count them.
pub proof fn law_merge_text_kinds(base: Seq<char>, ours: Seq<char>, theirs: Seq<char>, r: ResultView)
    requires
        merge_text_result(base, ours, theirs, r),
    ensures
        forall|i: int| 0 <= i < r.chunks.len() ==> kind_ok(#[trigger] r.chunks[i]),
        result_counts(r),
{
    let (o, t) = choose|o: Seq<LineOp>, t: Seq<LineOp>|
        {
            &&& ops_cover(o, split_lines(base).len() as int, split_lines(ours).len() as int)
            &&& equal_ops_match(o, split_lines(base), split_lines(ours))
            &&& ops_cover(t, split_lines(base).len() as int, split_lines(theirs).len() as int)
            &&& equal_ops_match(t, split_lines(base), split_lines(theirs))
            &&& r == merge_spec(split_lines(base), o, split_lines(ours), t, split_lines(theirs))
        };
    let bl = split_lines(base);
    let blen = bl.len() as int;
    let a = op_hunks(o, split_lines(ours), false);
    let b = op_hunks(t, split_lines(theirs), true);
    lemma_cover_ordered(o, blen, split_lines(ours).len() as int);
    lemma_cover_ordered(t, blen, split_lines(theirs).len() as int);
    lemma_op_hunks_sorted(o, split_lines(ours), blen, false);
    lemma_op_hunks_sorted(t, split_lines(theirs), blen, true);
    lemma_merge_sorted_wf(a, b, blen);
    lemma_groups_wf(merge_sorted(a, b), blen);
    assert(clean_all(bl).len() == blen);
    law_merge_kinds_and_counts(clean_all(bl), group_hunks_spec(merge_sorted(a, b)));
}

/// What a parser state holds: numbered chunks, each side's counter one past
/// its lines, only stable chunks (the same on all sides) and conflicts, and
/// the count of conflicts.
pub open spec fn parse_inv(st: ParseView) -> bool {
    &&& numbered(st.chunks)
    &&& st.base_no == 1 + side_lines(st.chunks, 0).len()
    &&& st.ours_no == 1 + side_lines(st.chunks, 1).len()
    &&& st.theirs_no == 1 + side_lines(st.chunks, 2).len()
    &&& forall|i: int|
        0 <= i < st.chunks.len() ==> (#[trigger] st.chunks[i]).kind == ChunkKind::Conflict || (
        st.chunks[i].kind == ChunkKind::Stable && kind_ok(st.chunks[i]))
    &&& st.conflicts == count_kind(st.chunks, ChunkKind::Conflict)
    &&& count_kind(st.chunks, ChunkKind::Ours) == 0
    &&& count_kind(st.chunks, ChunkKind::Theirs) == 0
    &&& count_kind(st.chunks, ChunkKind::Agree) == 0
}

/// Appending a chunk numbered after the others, stable or conflicting,
/// keeps the parser's invariant when the counters move with it.
proof fn lemma_parse_push(st: ParseView, c: ChunkView, n: ParseView)
    requires
        parse_inv(st),
        n.chunks == st.chunks.push(c),
        c.id == st.chunks.len(),
        c.base_start == st.base_no && c.ours_start == st.ours_no && c.theirs_start == st.theirs_no,
        c.kind == ChunkKind::Conflict || (c.kind == ChunkKind::Stable && kind_ok(c)),
        n.base_no == st.base_no + c.base.len(),
        n.ours_no == st.ours_no + c.ours.len(),
        n.theirs_no == st.theirs_no + c.theirs.len(),
        n.conflicts == st.conflicts + if c.kind == ChunkKind::Conflict {
            1int
        } else {
            0
        },
    ensures
        parse_inv(n),
{
    assert forall|side: int| 0 <= side < 3 implies start_of(c, side) == 1 + #[trigger] side_lines(st.chunks, side).len() by {
    }
    lemma_numbered_push(st.chunks, c);
    lemma_side_lines_push(st.chunks, c, 0);
    lemma_side_lines_push(st.chunks, c, 1);
    lemma_side_lines_push(st.chunks, c, 2);
    assert(n.chunks.drop_last() =~= st.chunks);
    assert forall|i: int| 0 <= i < n.chunks.len() implies (#[trigger] n.chunks[i]).kind == ChunkKind::Conflict || (
    n.chunks[i].kind == ChunkKind::Stable && kind_ok(n.chunks[i])) by {
        if i < st.chunks.len() {
            assert(n.chunks[i] == st.chunks[i]);
        }
    }
}

/// Flushing the shared lines keeps the parser's invariant.
proof fn lemma_flush_inv(st: ParseView)
    requires
        parse_inv(st),
    ensures
        parse_inv(flush_common_spec(st)),
{
    if st.common.len() > 0 {
        let n = flush_common_spec(st);
        lemma_parse_push(st, n.chunks.last(), n);
    }
}

/// Every parser state keeps the invariant.
proof fn lemma_parse_fold_inv(lines: Seq<Seq<char>>)
    ensures
        parse_inv(parse_fold(lines)),
    decreases lines.len(),
{
    if lines.len() == 0 {
        let st = parse_fold(lines);
        assert(side_lines(st.chunks, 0) =~= Seq::<Seq<char>>::empty());
        assert(side_lines(st.chunks, 1) =~= Seq::<Seq<char>>::empty());
        assert(side_lines(st.chunks, 2) =~= Seq::<Seq<char>>::empty());
    } else {
        lemma_parse_fold_inv(lines.drop_last());
        let st = parse_fold(lines.drop_last());
        let line = lines.last();
        let no = lines.len() as int;
        let n = parse_step(st, line, no);
        if st.failed is None {
            if crate::merge::is_marker(line, '<') {
                if st.section == crate::merge::Section::Common {
                    lemma_flush_inv(st);
                }
            } else if st.section == crate::merge::Section::Ours && crate::merge::is_marker(line, '|') {
            } else if (st.section == crate::merge::Section::Ours || st.section == crate::merge::Section::Base)
                && crate::merge::is_separator(line) {
            } else if crate::merge::is_marker(line, '>') {
                if st.section == crate::merge::Section::Theirs {
                    lemma_parse_push(st, n.chunks.last(), n);
                }
            }
        }
    }
}

/// A parsed conflict file gives numbered chunks, in file order, whose line
/// numbers count along each side; its chunks are stable (the same on all
/// sides) or conflicts, and its counts count the conflicts and nothing else.
pub proof fn law_parse_chunks(text: Seq<char>)
    ensures
        parse_result(text) matches Ok(r) ==> {
            &&& numbered(r.chunks)
            &&& forall|i: int|
                0 <= i < r.chunks.len() ==> (#[trigger] r.chunks[i]).kind == ChunkKind::Conflict || (
                r.chunks[i].kind == ChunkKind::Stable && kind_ok(r.chunks[i]))
            &&& result_counts(r)
        },
{
    let st = parse_fold(conflict_lines(text));
    lemma_parse_fold_inv(conflict_lines(text));
    lemma_flush_inv(st);
}

} // verus!
