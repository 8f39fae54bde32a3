//! Laws of conflict-marked files: what the parser keeps of a file's lines,
//! the shape of its stable chunks, and when it reports an error.

use vstd::prelude::*;

use crate::merge::{
    ChunkKind, ChunkView, ParseView, Section, conflict_lines, flush_common_spec, is_marker,
    is_separator, parse_fold, parse_result, parse_step, ConflictParseError,
};
use crate::text::trim_end_cr;

verus! {

/// `line` ends in a carriage return.
pub open spec fn ends_cr(line: Seq<char>) -> bool {
    line.len() > 0 && line.last() == '\r'
}

/// No line of `ls` ends in a carriage return.
pub open spec fn cr_free(ls: Seq<Seq<char>>) -> bool {
    forall|k: int| 0 <= k < ls.len() ==> !ends_cr(#[trigger] ls[k])
}

/// Stable chunks hold at least one line, and no two of them follow each
/// other; no line of any side ends in a carriage return.
pub open spec fn parsed_shape(cs: Seq<ChunkView>) -> bool {
    &&& forall|i: int|
        0 <= i < cs.len() && (#[trigger] cs[i]).kind == ChunkKind::Stable ==> cs[i].base.len() > 0
    &&& forall|i: int, j: int|
        #![trigger cs[i], cs[j]]
        0 <= i && j == i + 1 && j < cs.len() ==> !(cs[i].kind == ChunkKind::Stable && cs[j].kind
            == ChunkKind::Stable)
    &&& forall|i: int|
        0 <= i < cs.len() ==> cr_free((#[trigger] cs[i]).base) && cr_free(cs[i].ours) && cr_free(
            cs[i].theirs,
        )
}

/// What a parser state keeps of the shape: the chunks have it, the buffers
/// hold no carriage returns at line ends, and outside a conflict the last
/// chunk, if any, is a conflict.
pub open spec fn shape_inv(st: ParseView) -> bool {
    &&& parsed_shape(st.chunks)
    &&& cr_free(st.common) && cr_free(st.ours) && cr_free(st.base) && cr_free(st.theirs)
    &&& st.section == Section::Common && st.chunks.len() > 0 ==> st.chunks.last().kind
        == ChunkKind::Conflict
}

/// Trimming carriage returns leaves none at the end.
proof fn lemma_trim_end_cr(s: Seq<char>)
    ensures
        !ends_cr(trim_end_cr(s)),
    decreases s.len(),
{
    if s.len() > 0 && s.last() == '\r' {
        lemma_trim_end_cr(s.drop_last());
    }
}

/// Pushing a chunk that keeps the shape's conditions keeps the shape.
proof fn lemma_shape_push(cs: Seq<ChunkView>, c: ChunkView)
    requires
        parsed_shape(cs),
        c.kind == ChunkKind::Stable ==> c.base.len() > 0,
        c.kind == ChunkKind::Stable && cs.len() > 0 ==> cs.last().kind != ChunkKind::Stable,
        cr_free(c.base) && cr_free(c.ours) && cr_free(c.theirs),
    ensures
        parsed_shape(cs.push(c)),
{
    let n = cs.push(c);
    assert forall|i: int| 0 <= i < n.len() implies cr_free((#[trigger] n[i]).base) && cr_free(
        n[i].ours,
    ) && cr_free(n[i].theirs) && (n[i].kind == ChunkKind::Stable ==> n[i].base.len() > 0) by {
        if i < cs.len() {
            assert(n[i] == cs[i]);
        }
    }
    assert forall|i: int, j: int|
        #![trigger n[i], n[j]]
        0 <= i && j == i + 1 && j < n.len() implies !(n[i].kind == ChunkKind::Stable && n[j].kind
        == ChunkKind::Stable) by {
        if j < cs.len() {
            assert(n[i] == cs[i] && n[j] == cs[j]);
        } else {
            assert(n[i] == cs.last());
        }
    }
}

/// Flushing the shared lines in the shared section keeps the shape of the
/// chunks and of the buffers.
proof fn lemma_shape_flush(st: ParseView)
    requires
        shape_inv(st),
        st.section == Section::Common,
    ensures
        parsed_shape(flush_common_spec(st).chunks),
        cr_free(flush_common_spec(st).common) && cr_free(flush_common_spec(st).ours),
        cr_free(flush_common_spec(st).base) && cr_free(flush_common_spec(st).theirs),
{
    if st.common.len() > 0 {
        let n = flush_common_spec(st);
        lemma_shape_push(st.chunks, n.chunks.last());
        assert(n.chunks == st.chunks.push(n.chunks.last()));
    }
}

/// Reading a line without a trailing carriage return keeps the shape.
proof fn lemma_shape_step(st: ParseView, line: Seq<char>, no: int)
    requires
        shape_inv(st),
        !ends_cr(line),
    ensures
        shape_inv(parse_step(st, line, no)),
{
    let n = parse_step(st, line, no);
    if st.failed is None {
        if is_marker(line, '<') {
            if st.section == Section::Common {
                lemma_shape_flush(st);
            }
        } else if st.section == Section::Ours && is_marker(line, '|') {
        } else if (st.section == Section::Ours || st.section == Section::Base) && is_separator(line) {
        } else if is_marker(line, '>') {
            if st.section == Section::Theirs {
                lemma_shape_push(st.chunks, n.chunks.last());
                assert(n.chunks == st.chunks.push(n.chunks.last()));
            }
        } else {
            assert(st.common.push(line).drop_last() =~= st.common);
            assert(st.ours.push(line).drop_last() =~= st.ours);
            assert(st.base.push(line).drop_last() =~= st.base);
            assert(st.theirs.push(line).drop_last() =~= st.theirs);
        }
    }
}

/// Every state reached over lines without trailing carriage returns keeps the shape.
proof fn lemma_shape_fold(lines: Seq<Seq<char>>)
    requires
        cr_free(lines),
    ensures
        shape_inv(parse_fold(lines)),
    decreases lines.len(),
{
    if lines.len() > 0 {
        assert(cr_free(lines.drop_last())) by {
            assert forall|k: int| 0 <= k < lines.drop_last().len() implies !ends_cr(
                #[trigger] lines.drop_last()[k],
            ) by {
                assert(lines.drop_last()[k] == lines[k]);
            }
        }
        lemma_shape_fold(lines.drop_last());
        assert(!ends_cr(lines[lines.len() - 1]));
        lemma_shape_step(parse_fold(lines.drop_last()), lines.last(), lines.len() as int);
    }
}

/// The lines of a conflict-marked file end in no carriage return.
proof fn lemma_conflict_lines_cr_free(text: Seq<char>)
    ensures
        cr_free(conflict_lines(text)),
{
    assert forall|k: int| 0 <= k < conflict_lines(text).len() implies !ends_cr(
        #[trigger] conflict_lines(text)[k],
    ) by {
        let l = crate::text::str_lines(text)[k];
        lemma_trim_end_cr(l);
    }
}

/// A parsed conflict file has no empty stable chunk, never two stable chunks
/// in a row, and no line that ends in a carriage return.
pub proof fn law_parse_shape(text: Seq<char>)
    ensures
        parse_result(text) matches Ok(r) ==> parsed_shape(r.chunks),
{
    let lines = conflict_lines(text);
    lemma_conflict_lines_cr_free(text);
    lemma_shape_fold(lines);
    let st = parse_fold(lines);
    if st.failed is None && st.section == Section::Common {
        lemma_shape_flush(st);
    }
}

/// Some line of `lines` opens or closes a conflict.
pub open spec fn has_conflict_marker(lines: Seq<Seq<char>>) -> bool {
    exists|k: int| 0 <= k < lines.len() && (is_marker(#[trigger] lines[k], '<') || is_marker(lines[k], '>'))
}

/// What the parser's error fields say after reading `lines`: without an
/// opening or closing marker nothing has happened; after one, the parser has
/// failed, is inside a conflict or has counted one; a failure and an open
/// conflict point at a line that was read.
proof fn lemma_error_fold(lines: Seq<Seq<char>>)
    ensures
        !has_conflict_marker(lines) ==> parse_fold(lines).failed is None && parse_fold(lines).section
            == Section::Common && parse_fold(lines).conflicts == 0,
        has_conflict_marker(lines) ==> parse_fold(lines).failed is Some || parse_fold(lines).section
            != Section::Common || parse_fold(lines).conflicts > 0,
        parse_fold(lines).conflicts >= 0,
        parse_fold(lines).failed matches Some(n) ==> 1 <= n <= lines.len(),
        parse_fold(lines).section != Section::Common ==> 1 <= parse_fold(lines).conflict_start
            <= lines.len(),
    decreases lines.len(),
{
    if lines.len() > 0 {
        let prev = lines.drop_last();
        let line = lines.last();
        lemma_error_fold(prev);
        assert(has_conflict_marker(lines) == (has_conflict_marker(prev) || is_marker(line, '<')
            || is_marker(line, '>'))) by {
            if has_conflict_marker(prev) {
                let k = choose|k: int| 0 <= k < prev.len() && (is_marker(#[trigger] prev[k], '<')
                    || is_marker(prev[k], '>'));
                assert(lines[k] == prev[k]);
            }
            if is_marker(line, '<') || is_marker(line, '>') {
                assert(lines[lines.len() - 1] == line);
            }
            if has_conflict_marker(lines) {
                let k = choose|k: int| 0 <= k < lines.len() && (is_marker(#[trigger] lines[k], '<')
                    || is_marker(lines[k], '>'));
                if k < prev.len() {
                    assert(prev[k] == lines[k]);
                }
            }
        }
    }
}

/// A conflict-marked file is refused for want of markers exactly when no
/// line opens or closes a conflict; a malformed file is reported at one of
/// its lines.
pub proof fn law_parse_errors(text: Seq<char>)
    requires
        conflict_lines(text).len() <= usize::MAX,
    ensures
        (parse_result(text) == Err::<crate::merge::ResultView, ConflictParseError>(
            ConflictParseError::NoMarkers,
        )) <==> !has_conflict_marker(conflict_lines(text)),
        parse_result(text) matches Err(ConflictParseError::Malformed(n)) ==> 1 <= n <= conflict_lines(
            text,
        ).len(),
{
    lemma_error_fold(conflict_lines(text));
}

/// The section of a conflict-marked file that follows `line`, read in `sec`.
pub open spec fn next_section(sec: Section, line: Seq<char>) -> Section {
    if is_marker(line, '<') {
        Section::Ours
    } else if sec == Section::Ours && is_marker(line, '|') {
        Section::Base
    } else if (sec == Section::Ours || sec == Section::Base) && is_separator(line) {
        Section::Theirs
    } else if is_marker(line, '>') {
        Section::Common
    } else {
        sec
    }
}

/// `line`, read in `sec`, is a marker: it opens a conflict, the conflict's
/// base part or its remote part, or it closes the conflict.
pub open spec fn is_marker_line(sec: Section, line: Seq<char>) -> bool {
    ||| is_marker(line, '<')
    ||| sec == Section::Ours && is_marker(line, '|')
    ||| (sec == Section::Ours || sec == Section::Base) && is_separator(line)
    ||| is_marker(line, '>')
}

/// The section that follows the lines.
pub open spec fn section_after(lines: Seq<Seq<char>>) -> Section
    decreases lines.len(),
{
    if lines.len() == 0 {
        Section::Common
    } else {
        next_section(section_after(lines.drop_last()), lines.last())
    }
}

/// The lines that are not markers, in file order.
pub open spec fn content_lines(lines: Seq<Seq<char>>) -> Seq<Seq<char>>
    decreases lines.len(),
{
    if lines.len() == 0 {
        Seq::empty()
    } else if is_marker_line(section_after(lines.drop_last()), lines.last()) {
        content_lines(lines.drop_last())
    } else {
        content_lines(lines.drop_last()).push(lines.last())
    }
}

/// The lines a chunk took from the file: a stable chunk's shared lines, a
/// conflict's local, base and remote parts in that order.
pub open spec fn chunk_text(c: ChunkView) -> Seq<Seq<char>> {
    if c.kind == ChunkKind::Stable {
        c.base
    } else {
        c.ours + c.base + c.theirs
    }
}

/// The lines the chunks took from the file, one chunk after the other.
pub open spec fn chunks_text(cs: Seq<ChunkView>) -> Seq<Seq<char>>
    decreases cs.len(),
{
    if cs.len() == 0 {
        Seq::empty()
    } else {
        chunks_text(cs.drop_last()) + chunk_text(cs.last())
    }
}

/// While no marker was misplaced, the parser follows the sections, and its
/// chunks and buffers, in order, hold the content lines read so far; only the
/// buffers of the current part and those before it in the conflict hold lines.
pub open spec fn text_inv(lines: Seq<Seq<char>>, st: ParseView) -> bool {
    st.failed is None ==> {
        &&& st.section == section_after(lines)
        &&& chunks_text(st.chunks) + st.common + st.ours + st.base + st.theirs == content_lines(lines)
        &&& st.section != Section::Common ==> st.common.len() == 0
        &&& st.section == Section::Common ==> st.ours.len() == 0 && st.base.len() == 0
            && st.theirs.len() == 0
        &&& st.section == Section::Ours ==> st.base.len() == 0 && st.theirs.len() == 0
        &&& st.section == Section::Base ==> st.theirs.len() == 0
    }
}

proof fn lemma_chunks_text_push(cs: Seq<ChunkView>, c: ChunkView)
    ensures
        chunks_text(cs.push(c)) == chunks_text(cs) + chunk_text(c),
{
    assert(cs.push(c).drop_last() =~= cs);
}

/// Reading one more line keeps the parser in step with the file's content.
proof fn lemma_text_step(lines: Seq<Seq<char>>, line: Seq<char>)
    requires
        text_inv(lines, parse_fold(lines)),
    ensures
        text_inv(lines.push(line), parse_fold(lines.push(line))),
{
    let all = lines.push(line);
    assert(all.drop_last() =~= lines);
    let st = parse_fold(lines);
    let n = parse_fold(all);
    assert(n == parse_step(st, line, all.len() as int));
    if st.failed is None {
        let pre = chunks_text(st.chunks);
        let e = Seq::<Seq<char>>::empty();
        if is_marker(line, '<') {
            if st.section == Section::Common {
                let f = flush_common_spec(st);
                if st.common.len() > 0 {
                    lemma_chunks_text_push(st.chunks, f.chunks.last());
                    assert(f.chunks == st.chunks.push(f.chunks.last()));
                }
                assert(chunks_text(f.chunks) == pre + st.common);
                assert(st.ours =~= e && st.base =~= e && st.theirs =~= e);
                assert(chunks_text(n.chunks) + n.common + n.ours + n.base + n.theirs
                    =~= pre + st.common + st.ours + st.base + st.theirs);
            }
        } else if st.section == Section::Ours && is_marker(line, '|') {
        } else if (st.section == Section::Ours || st.section == Section::Base) && is_separator(line) {
        } else if is_marker(line, '>') {
            if st.section == Section::Theirs {
                lemma_chunks_text_push(st.chunks, n.chunks.last());
                assert(n.chunks == st.chunks.push(n.chunks.last()));
                assert(st.common =~= e);
                assert(chunks_text(n.chunks) + n.common + n.ours + n.base + n.theirs
                    =~= pre + st.common + st.ours + st.base + st.theirs);
            }
        } else {
            match st.section {
                Section::Common => {
                    assert(st.ours =~= e && st.base =~= e && st.theirs =~= e);
                    assert(pre + n.common + n.ours + n.base + n.theirs =~= (pre + st.common + st.ours
                        + st.base + st.theirs).push(line));
                },
                Section::Ours => {
                    assert(st.common =~= e && st.base =~= e && st.theirs =~= e);
                    assert(pre + n.common + n.ours + n.base + n.theirs =~= (pre + st.common + st.ours
                        + st.base + st.theirs).push(line));
                },
                Section::Base => {
                    assert(st.common =~= e && st.theirs =~= e);
                    assert(pre + n.common + n.ours + n.base + n.theirs =~= (pre + st.common + st.ours
                        + st.base + st.theirs).push(line));
                },
                Section::Theirs => {
                    assert(st.common =~= e);
                    assert(pre + n.common + n.ours + n.base + n.theirs =~= (pre + st.common + st.ours
                        + st.base + st.theirs).push(line));
                },
            }
        }
    }
}

/// Every state of the parser keeps in step with the file's content.
proof fn lemma_text_fold(lines: Seq<Seq<char>>)
    ensures
        text_inv(lines, parse_fold(lines)),
    decreases lines.len(),
{
    if lines.len() == 0 {
        assert(chunks_text(Seq::<ChunkView>::empty()) =~= Seq::<Seq<char>>::empty());
        assert(parse_fold(lines).chunks =~= Seq::<ChunkView>::empty());
    } else {
        lemma_text_fold(lines.drop_last());
        lemma_text_step(lines.drop_last(), lines.last());
        assert(lines.drop_last().push(lines.last()) =~= lines);
    }
}

/// The chunks of a parsed conflict file give back its lines without the
/// markers, in file order: each stable chunk its shared lines, each conflict
/// its local, base and remote parts.
pub proof fn law_parse_keeps_content(text: Seq<char>)
    ensures
        parse_result(text) matches Ok(r) ==> chunks_text(r.chunks) == content_lines(
            conflict_lines(text),
        ),
{
    let lines = conflict_lines(text);
    lemma_text_fold(lines);
    let st = parse_fold(lines);
    if st.failed is None && st.section == Section::Common {
        let f = flush_common_spec(st);
        let e = Seq::<Seq<char>>::empty();
        assert(st.ours =~= e && st.base =~= e && st.theirs =~= e);
        if st.common.len() > 0 {
            lemma_chunks_text_push(st.chunks, f.chunks.last());
            assert(f.chunks == st.chunks.push(f.chunks.last()));
            assert(chunks_text(f.chunks) =~= chunks_text(st.chunks) + st.common + st.ours + st.base
                + st.theirs);
        } else {
            assert(chunks_text(f.chunks) =~= chunks_text(st.chunks) + st.common + st.ours + st.base
                + st.theirs);
        }
    }
}

/// The chunks of a parsed conflict file count their line numbers along each
/// side: the first chunk starts at line 1, and each next chunk starts where
/// the one before it ends.
pub proof fn law_parse_line_numbers(text: Seq<char>)
    ensures
        parse_result(text) matches Ok(r) ==> {
            &&& r.chunks.len() > 0 ==> r.chunks[0].base_start == 1 && r.chunks[0].ours_start == 1
                && r.chunks[0].theirs_start == 1
            &&& forall|i: int|
                0 <= i < r.chunks.len() - 1 ==> {
                    &&& #[trigger] r.chunks[i + 1].base_start == r.chunks[i].base_start
                        + r.chunks[i].base.len()
                    &&& r.chunks[i + 1].ours_start == r.chunks[i].ours_start + r.chunks[i].ours.len()
                    &&& r.chunks[i + 1].theirs_start == r.chunks[i].theirs_start
                        + r.chunks[i].theirs.len()
                }
        },
{
    crate::cover::law_parse_chunks(text);
    if let Ok(r) = parse_result(text) {
        let cs = r.chunks;
        if cs.len() > 0 {
            assert(cs.take(0) =~= Seq::<ChunkView>::empty());
            assert(crate::cover::start_of(cs[0], 0) == 1);
            assert(crate::cover::start_of(cs[0], 1) == 1);
            assert(crate::cover::start_of(cs[0], 2) == 1);
        }
        assert forall|i: int| 0 <= i < cs.len() - 1 implies {
            &&& #[trigger] cs[i + 1].base_start == cs[i].base_start + cs[i].base.len()
            &&& cs[i + 1].ours_start == cs[i].ours_start + cs[i].ours.len()
            &&& cs[i + 1].theirs_start == cs[i].theirs_start + cs[i].theirs.len()
        } by {
            assert(cs.take(i + 1).drop_last() =~= cs.take(i));
            assert(cs.take(i + 1).last() == cs[i]);
            assert(crate::cover::start_of(cs[i + 1], 0) == 1 + crate::cover::side_lines(cs.take(i + 1), 0).len());
            assert(crate::cover::start_of(cs[i + 1], 1) == 1 + crate::cover::side_lines(cs.take(i + 1), 1).len());
            assert(crate::cover::start_of(cs[i + 1], 2) == 1 + crate::cover::side_lines(cs.take(i + 1), 2).len());
            assert(crate::cover::start_of(cs[i], 0) == 1 + crate::cover::side_lines(cs.take(i), 0).len());
            assert(crate::cover::start_of(cs[i], 1) == 1 + crate::cover::side_lines(cs.take(i), 1).len());
            assert(crate::cover::start_of(cs[i], 2) == 1 + crate::cover::side_lines(cs.take(i), 2).len());
        }
    }
}

} // verus!
