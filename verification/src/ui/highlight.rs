//! Word-level emphasis inside change chunks, in the manner of delta: lines
//! of a chunk are first paired (the old and new lines of a replaced range,
//! by position), then each pair is diffed word by word, and the changed
//! byte ranges of the new line are emphasised. Each side is compared with
//! the base; a conflict without base lines (as in conflict-file mode)
//! compares the two sides with each other instead.

use vstd::prelude::*;

use similar::utils::diff_words;
use similar::{Algorithm, ChangeTag, DiffTag, capture_diff_slices};

use crate::merge::{ChunkKind, MergeChunk};
use crate::text::{is_ws, strings_view};
use crate::ui::cells::on_char;
use crate::ui::panes::{utf8_len, utf8_width};

verus! {

/// Chunks with more lines than this on any side get no word emphasis.
pub const EMPH_MAX_LINES: usize = 400;

/// Lines with more bytes than this get no word emphasis.
pub const EMPH_MAX_LINE_BYTES: usize = 2000;

/// Emphasis covering more than this share (in %) of a line is dropped:
/// the whole line is changed, and the band says so.
pub const EMPH_MAX_RATIO: usize = 70;

/// What a word of a word diff is.
#[derive(Debug, Clone, Copy, PartialEq, Eq, Structural)]
pub enum WordTag {
    /// In both texts
    Equal,
    /// Only in the old text
    Delete,
    /// Only in the new text
    Insert,
}

/// The words `similar::utils::diff_words` (Myers) gives for two texts.
pub uninterp spec fn word_changes(old: Seq<char>, new: Seq<char>) -> Seq<(WordTag, Seq<char>)>;

/// The text the kept words spell: all but the deleted ones for the new
/// side (`new_side`), all but the inserted ones for the old side.
pub open spec fn side_text(w: Seq<(WordTag, Seq<char>)>, new_side: bool) -> Seq<char>
    decreases w.len(),
{
    if w.len() == 0 {
        Seq::empty()
    } else {
        side_text(w.drop_last(), new_side) + if w.last().0 == (if new_side {
            WordTag::Delete
        } else {
            WordTag::Insert
        }) {
            Seq::empty()
        } else {
            w.last().1
        }
    }
}

/// The views of diffed words.
pub open spec fn words_view(v: Seq<(WordTag, String)>) -> Seq<(WordTag, Seq<char>)> {
    v.map_values(|p: (WordTag, String)| (p.0, p.1@))
}

/// `similar::utils::diff_words(Algorithm::Myers, old, new)`: the word diff
/// of two texts (no deadline, so a function of the texts alone). As the
/// source shows, the words are slices of the inputs taken along diff ops
/// that cover both texts in order, so the equal and inserted words spell
/// the new text and the equal and deleted words spell the old one.
#[verifier::external_body]
fn word_diff(old: &str, new: &str) -> (r: Vec<(WordTag, String)>)
    ensures
        words_view(r@) == word_changes(old@, new@),
        side_text(words_view(r@), true) == new@,
        side_text(words_view(r@), false) == old@,
{
    diff_words(Algorithm::Myers, old, new).into_iter().map(
        |(tag, word)|
            (
                match tag {
                    ChangeTag::Equal => WordTag::Equal,
                    ChangeTag::Delete => WordTag::Delete,
                    ChangeTag::Insert => WordTag::Insert,
                },
                word.to_string(),
            ),
    ).collect()
}

/// Whether every character is white space.
pub open spec fn all_ws(s: Seq<char>) -> bool {
    forall|i: int| 0 <= i < s.len() ==> is_ws(#[trigger] s[i])
}

/// The emphasised byte ranges after some words, and the new-side text
/// since the end of the last range. An inserted word becomes a range, or
/// extends the last one when only white space lies between them.
pub open spec fn emph_fold(w: Seq<(WordTag, Seq<char>)>) -> (Seq<(int, int)>, Seq<char>)
    decreases w.len(),
{
    if w.len() == 0 {
        (Seq::empty(), Seq::empty())
    } else {
        let prev = emph_fold(w.drop_last());
        let rs = prev.0;
        let gap = prev.1;
        let pos = utf8_len(side_text(w.drop_last(), true));
        let tok = w.last().1;
        match w.last().0 {
            WordTag::Delete => (rs, gap),
            WordTag::Equal => (rs, gap + tok),
            WordTag::Insert => {
                let next = pos + utf8_len(tok);
                if rs.len() > 0 && all_ws(gap) {
                    (rs.update(rs.len() - 1, (rs.last().0, next)), Seq::empty())
                } else {
                    (rs.push((pos, next)), Seq::empty())
                }
            },
        }
    }
}

/// Bytes covered by ranges.
pub open spec fn covered(rs: Seq<(int, int)>) -> int
    decreases rs.len(),
{
    if rs.len() == 0 {
        0
    } else {
        covered(rs.drop_last()) + (rs.last().1 - rs.last().0)
    }
}

/// The byte ranges of `new` that differ from `old`, word by word: none
/// for a line over `EMPH_MAX_LINE_BYTES`, and none when they would cover
/// more than `EMPH_MAX_RATIO` percent of the new line.
pub open spec fn line_emph_spec(old: Seq<char>, new: Seq<char>) -> Seq<(int, int)> {
    if utf8_len(old) > EMPH_MAX_LINE_BYTES || utf8_len(new) > EMPH_MAX_LINE_BYTES {
        Seq::empty()
    } else {
        let rs = emph_fold(word_changes(old, new)).0;
        if covered(rs) * 100 > utf8_len(new) * EMPH_MAX_RATIO {
            Seq::empty()
        } else {
            rs
        }
    }
}

/// Whether byte ranges lie in a text in order: each within the text with
/// both ends between characters, and none starting before an earlier one ends.
pub open spec fn ranges_in_order(s: Seq<char>, rs: Seq<(int, int)>) -> bool {
    &&& forall|k: int|
        0 <= k < rs.len() ==> 0 <= (#[trigger] rs[k]).0 <= rs[k].1 <= utf8_len(s) && on_char(s, rs[k].0) && on_char(
            s,
            rs[k].1,
        )
    &&& forall|j: int, k: int| 0 <= j < k < rs.len() ==> (#[trigger] rs[j]).1 <= (#[trigger] rs[k]).0
}

/// Whether each line's ranges lie in order in that line (one entry per line).
pub open spec fn lines_in_order(lines: Seq<Seq<char>>, e: Seq<Seq<(int, int)>>) -> bool {
    &&& e.len() == lines.len()
    &&& forall|i: int| 0 <= i < e.len() ==> ranges_in_order(lines[i], #[trigger] e[i])
}

/// A byte offset between characters of a text is one of any longer text
/// that starts with it.
proof fn lemma_on_char_extend(s: Seq<char>, t: Seq<char>, b: int)
    requires
        on_char(s, b),
    ensures
        on_char(s + t, b),
{
    let i = choose|i: int| 0 <= i <= s.len() && utf8_len(s.take(i)) == b;
    assert((s + t).take(i) =~= s.take(i));
}

/// The end of a text, and the end of a prefix of it, lie between characters.
proof fn lemma_on_char_ends(s: Seq<char>, t: Seq<char>)
    ensures
        on_char(s + t, utf8_len(s)),
        on_char(s + t, utf8_len(s + t)),
{
    assert((s + t).take(s.len() as int) =~= s);
    assert((s + t).take((s + t).len() as int) =~= s + t);
}

/// The emphasis of a word diff lies in order in the new text the words
/// spell: every range inside it, its ends between characters, and the
/// ranges ascending without overlap.
pub proof fn law_emphasis_in_order(w: Seq<(WordTag, Seq<char>)>)
    ensures
        ranges_in_order(side_text(w, true), emph_fold(w).0),
    decreases w.len(),
{
    if w.len() > 0 {
        let p = w.drop_last();
        law_emphasis_in_order(p);
        let s0 = side_text(p, true);
        let s = side_text(w, true);
        let extra = if w.last().0 == WordTag::Delete {
            Seq::<char>::empty()
        } else {
            w.last().1
        };
        assert(s == s0 + extra);
        lemma_utf8_len_add(s0, extra);
        lemma_utf8_len_nonneg(extra);
        lemma_on_char_ends(s0, extra);
        let rs0 = emph_fold(p).0;
        let rs = emph_fold(w).0;
        let pos = utf8_len(s0);
        assert forall|k: int| 0 <= k < rs0.len() implies on_char(s, (#[trigger] rs0[k]).0) && on_char(s, rs0[k].1)
            && rs0[k].1 <= pos by {
            lemma_on_char_extend(s0, extra, rs0[k].0);
            lemma_on_char_extend(s0, extra, rs0[k].1);
        }
        if w.last().0 == WordTag::Insert {
            assert(utf8_len(s) == pos + utf8_len(w.last().1));
            if rs0.len() > 0 && all_ws(emph_fold(p).1) {
                let n = rs0.len() - 1;
                assert(rs == rs0.update(n, (rs0[n].0, utf8_len(s))));
                assert forall|j: int, k: int| 0 <= j < k < rs.len() implies (#[trigger] rs[j]).1 <= (#[trigger] rs[k]).0 by {
                    assert(rs0[j].1 <= rs0[k].0);
                }
            } else {
                assert(rs == rs0.push((pos, utf8_len(s))));
                assert forall|j: int, k: int| 0 <= j < k < rs.len() implies (#[trigger] rs[j]).1 <= (#[trigger] rs[k]).0 by {
                    if k < rs0.len() {
                        assert(rs0[j].1 <= rs0[k].0);
                    } else {
                        assert(rs[j] == rs0[j]);
                    }
                }
            }
        } else {
            assert(rs == rs0);
        }
    }
}

/// The views of byte ranges.
pub open spec fn ranges_view(v: Seq<(usize, usize)>) -> Seq<(int, int)> {
    v.map_values(|p: (usize, usize)| (p.0 as int, p.1 as int))
}

/// UTF-8 length of a concatenation.
proof fn lemma_utf8_len_add(a: Seq<char>, b: Seq<char>)
    ensures
        utf8_len(a + b) == utf8_len(a) + utf8_len(b),
        utf8_len(a) >= 0,
    decreases b.len(),
{
    if b.len() == 0 {
        assert(a + b =~= a);
        lemma_utf8_len_nonneg(a);
    } else {
        lemma_utf8_len_add(a, b.drop_last());
        assert((a + b).drop_last() =~= a + b.drop_last());
    }
}

/// UTF-8 lengths are not negative.
proof fn lemma_utf8_len_nonneg(a: Seq<char>)
    ensures
        utf8_len(a) >= 0,
    decreases a.len(),
{
    if a.len() > 0 {
        lemma_utf8_len_nonneg(a.drop_last());
    }
}

/// The side text of a word list is that of a prefix followed by that of the rest.
proof fn lemma_side_text_split(w: Seq<(WordTag, Seq<char>)>, i: int, new_side: bool)
    requires
        0 <= i <= w.len(),
    ensures
        side_text(w, new_side) == side_text(w.take(i), new_side) + side_text(w.skip(i), new_side),
    decreases w.len(),
{
    if i == w.len() {
        assert(w.take(i) =~= w);
        assert(w.skip(i) =~= Seq::<(WordTag, Seq<char>)>::empty());
        assert(side_text(w, new_side) + Seq::<char>::empty() =~= side_text(w, new_side));
    } else {
        lemma_side_text_split(w.drop_last(), i, new_side);
        assert(w.drop_last().take(i) =~= w.take(i));
        assert(w.skip(i).drop_last() =~= w.drop_last().skip(i));
        assert(w.skip(i).last() == w.last());
    }
}

/// UTF-8 length of a text, up to `cap + 1`.
fn capped_len(s: &str, cap: usize) -> (n: usize)
    requires
        cap <= EMPH_MAX_LINE_BYTES,
    ensures
        n == if utf8_len(s@) <= cap {
            utf8_len(s@)
        } else {
            cap + 1
        },
{
    let chars = crate::text::chars_of(s);
    let mut b: usize = 0;
    let mut i: usize = 0;
    while i < chars.len()
        invariant
            0 <= i <= chars@.len(),
            chars@ == s@,
            cap <= EMPH_MAX_LINE_BYTES,
            b == utf8_len(chars@.take(i as int)),
            b <= cap,
        decreases chars@.len() - i,
    {
        assert(chars@.take(i + 1).drop_last() =~= chars@.take(i as int));
        let w = crate::ui::panes::char_len_utf8(chars[i]);
        if b + w > cap {
            proof {
                lemma_utf8_len_add(chars@.take(i + 1), chars@.skip(i + 1));
                assert(chars@.take(i + 1) + chars@.skip(i + 1) =~= chars@);
                lemma_utf8_len_nonneg(chars@.skip(i + 1));
            }
            return cap + 1;
        }
        b = b + w;
        i = i + 1;
    }
    assert(chars@.take(chars@.len() as int) =~= chars@);
    b
}

/// Whether every character of a text is white space.
fn text_all_ws(s: &str) -> (r: bool)
    ensures
        r == all_ws(s@),
{
    let chars = crate::text::chars_of(s);
    let mut i: usize = 0;
    while i < chars.len()
        invariant
            0 <= i <= chars@.len(),
            chars@ == s@,
            forall|j: int| 0 <= j < i ==> is_ws(#[trigger] chars@[j]),
        decreases chars@.len() - i,
    {
        if !crate::text::is_whitespace(chars[i]) {
            return false;
        }
        i = i + 1;
    }
    true
}

/// The emphasised ranges of a word diff whose new side is `new_bytes`
/// bytes long (at most `EMPH_MAX_LINE_BYTES`), before the share check:
/// the ranges and the bytes they cover.
pub fn emphasis_of_words(words: &Vec<(WordTag, String)>, new_bytes: usize) -> (r: (Vec<(usize, usize)>, usize))
    requires
        new_bytes <= EMPH_MAX_LINE_BYTES,
        utf8_len(side_text(words_view(words@), true)) == new_bytes,
    ensures
        ranges_view(r.0@) == emph_fold(words_view(words@)).0,
        r.1 == covered(emph_fold(words_view(words@)).0),
        r.1 <= new_bytes,
{
    let ghost w = words_view(words@);
    let mut rs: Vec<(usize, usize)> = Vec::new();
    let mut gap_ws = true;
    let mut pos: usize = 0;
    let mut cov: usize = 0;
    let mut i: usize = 0;
    while i < words.len()
        invariant
            0 <= i <= words@.len(),
            w == words_view(words@),
            new_bytes <= EMPH_MAX_LINE_BYTES,
            utf8_len(side_text(w, true)) == new_bytes,
            ranges_view(rs@) == emph_fold(w.take(i as int)).0,
            gap_ws == all_ws(emph_fold(w.take(i as int)).1),
            pos == utf8_len(side_text(w.take(i as int), true)),
            pos <= new_bytes,
            cov == covered(ranges_view(rs@)),
            rs@.len() == 0 ==> cov == 0,
            rs@.len() > 0 ==> cov <= rs@.last().1 <= pos,
            forall|k: int| 0 <= k < rs@.len() ==> (#[trigger] rs@[k]).0 <= rs@[k].1,
        decreases words@.len() - i,
    {
        let ghost pre = w.take(i as int);
        let ghost cur = w.take(i + 1);
        proof {
            assert(cur.drop_last() =~= pre);
            assert(cur.last() == w[i as int]);
            assert(w[i as int] == (words@[i as int].0, words@[i as int].1@));
            lemma_side_text_split(w, i + 1, true);
            lemma_utf8_len_add(side_text(cur, true), side_text(w.skip(i + 1), true));
            lemma_utf8_len_nonneg(side_text(w.skip(i + 1), true));
            lemma_utf8_len_add(side_text(pre, true), words@[i as int].1@);
            lemma_utf8_len_nonneg(words@[i as int].1@);
        }
        let tag = words[i].0;
        let tok = words[i].1.as_str();
        match tag {
            WordTag::Delete => {
                proof {
                    assert(side_text(cur, true) =~= side_text(pre, true));
                }
            },
            WordTag::Equal => {
                let len = capped_len(tok, EMPH_MAX_LINE_BYTES);
                let t_ws = text_all_ws(tok);
                proof {
                    let g = emph_fold(pre).1;
                    assert(all_ws(g + tok@) == (all_ws(g) && all_ws(tok@))) by {
                        if all_ws(g) && all_ws(tok@) {
                            assert forall|j: int| 0 <= j < (g + tok@).len() implies is_ws(#[trigger] (g + tok@)[j]) by {
                                if j < g.len() {
                                    assert((g + tok@)[j] == g[j]);
                                } else {
                                    assert((g + tok@)[j] == tok@[j - g.len()]);
                                }
                            }
                        }
                        if all_ws(g + tok@) {
                            assert forall|j: int| 0 <= j < g.len() implies is_ws(#[trigger] g[j]) by {
                                assert((g + tok@)[j] == g[j]);
                            }
                            assert forall|j: int| 0 <= j < tok@.len() implies is_ws(#[trigger] tok@[j]) by {
                                assert((g + tok@)[g.len() + j] == tok@[j]);
                            }
                        }
                    }
                }
                gap_ws = gap_ws && t_ws;
                pos = pos + len;
            },
            WordTag::Insert => {
                let len = capped_len(tok, EMPH_MAX_LINE_BYTES);
                let next = pos + len;
                let n = rs.len();
                if n > 0 && gap_ws {
                    let start = rs[n - 1].0;
                    let end = rs[n - 1].1;
                    let ghost before = rs@;
                    rs.set(n - 1, (start, next));
                    proof {
                        assert(ranges_view(rs@) =~= ranges_view(before).update(n - 1, (start as int, next as int)));
                        assert(ranges_view(rs@).drop_last() =~= ranges_view(before).drop_last());
                    }
                    cov = cov + (next - end);
                } else {
                    let ghost before = rs@;
                    rs.push((pos, next));
                    proof {
                        assert(ranges_view(rs@) =~= ranges_view(before).push((pos as int, next as int)));
                        assert(ranges_view(rs@).drop_last() =~= ranges_view(before));
                    }
                    cov = cov + (next - pos);
                }
                gap_ws = true;
                pos = next;
                proof {
                    assert(all_ws(Seq::<char>::empty()));
                }
            },
        }
        i = i + 1;
    }
    assert(w.take(words@.len() as int) =~= w);
    (rs, cov)
}

/// The byte ranges of `new` that differ from `old`, word by word.
pub fn line_emphasis(old: &str, new: &str) -> (r: Vec<(usize, usize)>)
    ensures
        ranges_view(r@) == line_emph_spec(old@, new@),
        ranges_in_order(new@, ranges_view(r@)),
{
    let ob = capped_len(old, EMPH_MAX_LINE_BYTES);
    let nb = capped_len(new, EMPH_MAX_LINE_BYTES);
    if ob > EMPH_MAX_LINE_BYTES || nb > EMPH_MAX_LINE_BYTES {
        let e: Vec<(usize, usize)> = Vec::new();
        assert(ranges_view(e@) =~= Seq::<(int, int)>::empty());
        return e;
    }
    let words = word_diff(old, new);
    proof {
        law_emphasis_in_order(words_view(words@));
    }
    let (rs, cov) = emphasis_of_words(&words, nb);
    if cov * 100 > nb * EMPH_MAX_RATIO {
        let e: Vec<(usize, usize)> = Vec::new();
        assert(ranges_view(e@) =~= Seq::<(int, int)>::empty());
        return e;
    }
    rs
}

/// What a diff op over lines does.
#[derive(Debug, Clone, Copy, PartialEq, Eq, Structural)]
pub enum OpTag {
    /// The ranges hold the same lines
    Equal,
    /// Old lines removed
    Delete,
    /// New lines added
    Insert,
    /// Old lines replaced by new ones
    Replace,
}

/// A diff op over lines: its tag and its old and new ranges.
#[derive(Debug, Clone, Copy, PartialEq, Eq, Structural)]
pub struct SliceOp {
    pub tag: OpTag,
    pub old_start: usize,
    pub old_end: usize,
    pub new_start: usize,
    pub new_end: usize,
}

/// The ops `similar::capture_diff_slices` (Myers) gives for two line lists.
pub uninterp spec fn slice_ops(old: Seq<Seq<char>>, new: Seq<Seq<char>>) -> Seq<SliceOp>;

/// Every op's ranges lie inside the line lists.
pub open spec fn ops_in_bounds(ops: Seq<SliceOp>, old_len: int, new_len: int) -> bool {
    forall|k: int|
        0 <= k < ops.len() ==> (#[trigger] ops[k]).old_start <= ops[k].old_end <= old_len && ops[k].new_start
            <= ops[k].new_end <= new_len
}

/// `similar::capture_diff_slices(Algorithm::Myers, old, new)`: the line
/// diff ops of two line lists (no deadline, so a function of the lines
/// alone), each with its tag and ranges; the ranges lie inside the lists.
#[verifier::external_body]
fn diff_slices(old: &Vec<String>, new: &Vec<String>) -> (ops: Vec<SliceOp>)
    ensures
        ops@ == slice_ops(strings_view(old@), strings_view(new@)),
        ops_in_bounds(ops@, old@.len() as int, new@.len() as int),
{
    capture_diff_slices(Algorithm::Myers, old.as_slice(), new.as_slice()).iter().map(
        |op|
            SliceOp {
                tag: match op.tag() {
                    DiffTag::Equal => OpTag::Equal,
                    DiffTag::Delete => OpTag::Delete,
                    DiffTag::Insert => OpTag::Insert,
                    DiffTag::Replace => OpTag::Replace,
                },
                old_start: op.old_range().start,
                old_end: op.old_range().end,
                new_start: op.new_range().start,
                new_end: op.new_range().end,
            },
    ).collect()
}

/// Number of line pairs of a replace op: old and new lines paired by position.
pub open spec fn pair_count(op: SliceOp) -> int {
    let a = op.old_end - op.old_start;
    let b = op.new_end - op.new_start;
    if a < b {
        a
    } else {
        b
    }
}

/// The emphasis of a side after its first `n` pairs with the base in `op`:
/// each new line gets its emphasis against the old line it is paired with.
pub open spec fn pair_fill(
    out: Seq<Seq<(int, int)>>,
    base: Seq<Seq<char>>,
    side: Seq<Seq<char>>,
    op: SliceOp,
    n: int,
) -> Seq<Seq<(int, int)>>
    decreases n,
{
    if n <= 0 {
        out
    } else {
        let prev = pair_fill(out, base, side, op, n - 1);
        let s = op.new_start + n - 1;
        if s < prev.len() {
            prev.update(s, line_emph_spec(base[op.old_start + n - 1], side[s]))
        } else {
            prev
        }
    }
}

/// The emphasis of a side against the base after the first ops: the lines
/// of each replace op are paired; other ops leave no emphasis.
pub open spec fn side_fold(ops: Seq<SliceOp>, base: Seq<Seq<char>>, side: Seq<Seq<char>>) -> Seq<Seq<(int, int)>>
    decreases ops.len(),
{
    if ops.len() == 0 {
        Seq::new(side.len(), |i: int| Seq::<(int, int)>::empty())
    } else {
        let prev = side_fold(ops.drop_last(), base, side);
        if ops.last().tag == OpTag::Replace {
            pair_fill(prev, base, side, ops.last(), pair_count(ops.last()))
        } else {
            prev
        }
    }
}

/// The emphasis of each line of a side against the base.
pub open spec fn side_emph_spec(base: Seq<Seq<char>>, side: Seq<Seq<char>>) -> Seq<Seq<(int, int)>> {
    side_fold(slice_ops(base, side), base, side)
}

/// The views of per-line emphasis.
pub open spec fn emph_view(v: Seq<Vec<(usize, usize)>>) -> Seq<Seq<(int, int)>> {
    v.map_values(|r: Vec<(usize, usize)>| ranges_view(r@))
}

/// `n` lines without emphasis.
fn empty_lines(n: usize) -> (out: Vec<Vec<(usize, usize)>>)
    ensures
        out@.len() == n,
        emph_view(out@) == Seq::new(n as nat, |i: int| Seq::<(int, int)>::empty()),
        forall|lines: Seq<Seq<char>>| lines.len() == n ==> #[trigger] lines_in_order(lines, emph_view(out@)),
{
    let mut out: Vec<Vec<(usize, usize)>> = Vec::new();
    let mut i: usize = 0;
    while i < n
        invariant
            0 <= i <= n,
            out@.len() == i,
            forall|j: int| 0 <= j < i ==> (#[trigger] out@[j])@.len() == 0,
        decreases n - i,
    {
        let e: Vec<(usize, usize)> = Vec::new();
        out.push(e);
        i = i + 1;
    }
    assert(emph_view(out@) =~= Seq::new(n as nat, |j: int| Seq::<(int, int)>::empty())) by {
        assert forall|j: int| 0 <= j < n implies #[trigger] emph_view(out@)[j] == Seq::<(int, int)>::empty() by {
            assert(ranges_view(out@[j]@) =~= Seq::<(int, int)>::empty());
        }
    }
    assert forall|lines: Seq<Seq<char>>| lines.len() == n implies #[trigger] lines_in_order(lines, emph_view(out@)) by {
        assert forall|i: int| 0 <= i < emph_view(out@).len() implies ranges_in_order(lines[i], #[trigger] emph_view(out@)[i]) by {
            assert(emph_view(out@)[i] == Seq::<(int, int)>::empty());
        }
    }
    out
}

/// The emphasis of each line of `side` against `base`.
pub fn side_emphasis(base: &Vec<String>, side: &Vec<String>) -> (out: Vec<Vec<(usize, usize)>>)
    ensures
        emph_view(out@) == side_emph_spec(strings_view(base@), strings_view(side@)),
        lines_in_order(strings_view(side@), emph_view(out@)),
{
    let ghost b = strings_view(base@);
    let ghost sd = strings_view(side@);
    let ops = diff_slices(base, side);
    let mut out = empty_lines(side.len());
    let mut k: usize = 0;
    while k < ops.len()
        invariant
            0 <= k <= ops@.len(),
            b == strings_view(base@),
            sd == strings_view(side@),
            ops_in_bounds(ops@, base@.len() as int, side@.len() as int),
            emph_view(out@) == side_fold(ops@.take(k as int), b, sd),
            out@.len() == side@.len(),
            lines_in_order(sd, emph_view(out@)),
        decreases ops@.len() - k,
    {
        let op = ops[k];
        proof {
            assert(ops@.take(k + 1).drop_last() =~= ops@.take(k as int));
            assert(ops@.take(k + 1).last() == op);
            assert(ops@[k as int] == op);
        }
        if op.tag == OpTag::Replace {
            let a = op.old_end - op.old_start;
            let c = op.new_end - op.new_start;
            let n = if a < c {
                a
            } else {
                c
            };
            let ghost start = emph_view(out@);
            let mut j: usize = 0;
            while j < n
                invariant
                    0 <= j <= n,
                    n == pair_count(op),
                    op.old_start + n <= base@.len(),
                    op.new_start + n <= side@.len(),
                    b == strings_view(base@),
                    sd == strings_view(side@),
                    out@.len() == side@.len(),
                    emph_view(out@) == pair_fill(start, b, sd, op, j as int),
                    start.len() == side@.len(),
                    lines_in_order(sd, emph_view(out@)),
                decreases n - j,
            {
                let s = op.new_start + j;
                let e = line_emphasis(base[op.old_start + j].as_str(), side[s].as_str());
                let ghost before = emph_view(out@);
                out.set(s, e);
                proof {
                    assert(b[op.old_start + j] == base@[op.old_start + j]@);
                    assert(sd[s as int] == side@[s as int]@);
                    assert(emph_view(out@) =~= before.update(s as int, ranges_view(e@)));
                    assert forall|i: int| 0 <= i < emph_view(out@).len() implies ranges_in_order(
                        sd[i],
                        #[trigger] emph_view(out@)[i],
                    ) by {
                        if i != s {
                            assert(emph_view(out@)[i] == before[i]);
                        }
                    }
                }
                j = j + 1;
            }
        }
        k = k + 1;
    }
    assert(ops@.take(ops@.len() as int) =~= ops@);
    out
}

/// Both sides' emphasis after the first `n` pairs of a replace op between
/// the local and the remote lines: each line gets its emphasis against the
/// line of the other side it is paired with.
pub open spec fn cross_fill(
    out: (Seq<Seq<(int, int)>>, Seq<Seq<(int, int)>>),
    ours: Seq<Seq<char>>,
    theirs: Seq<Seq<char>>,
    op: SliceOp,
    n: int,
) -> (Seq<Seq<(int, int)>>, Seq<Seq<(int, int)>>)
    decreases n,
{
    if n <= 0 {
        out
    } else {
        let p = cross_fill(out, ours, theirs, op, n - 1);
        let o = op.old_start + n - 1;
        let t = op.new_start + n - 1;
        (
            if o < p.0.len() {
                p.0.update(o, line_emph_spec(theirs[t], ours[o]))
            } else {
                p.0
            },
            if t < p.1.len() {
                p.1.update(t, line_emph_spec(ours[o], theirs[t]))
            } else {
                p.1
            },
        )
    }
}

/// No emphasis on any line of either side.
pub open spec fn no_emph(ours_len: nat, theirs_len: nat) -> (Seq<Seq<(int, int)>>, Seq<Seq<(int, int)>>) {
    (Seq::new(ours_len, |i: int| Seq::<(int, int)>::empty()), Seq::new(theirs_len, |i: int| Seq::<(int, int)>::empty()))
}

/// Both sides' emphasis after the first ops of the local-to-remote diff.
pub open spec fn cross_fold(ops: Seq<SliceOp>, ours: Seq<Seq<char>>, theirs: Seq<Seq<char>>) -> (
    Seq<Seq<(int, int)>>,
    Seq<Seq<(int, int)>>,
)
    decreases ops.len(),
{
    if ops.len() == 0 {
        no_emph(ours.len(), theirs.len())
    } else {
        let prev = cross_fold(ops.drop_last(), ours, theirs);
        if ops.last().tag == OpTag::Replace {
            cross_fill(prev, ours, theirs, ops.last(), pair_count(ops.last()))
        } else {
            prev
        }
    }
}

/// The word emphasis of a chunk, for the local and the remote lines: none
/// for a stable chunk or one with more than `EMPH_MAX_LINES` lines on a
/// side; without base lines, a conflict's sides are compared with each
/// other (a one-sided insertion has nothing to compare with); otherwise
/// each changed side is compared with the base.
pub open spec fn chunk_emph_spec(c: crate::merge::ChunkView) -> (Seq<Seq<(int, int)>>, Seq<Seq<(int, int)>>) {
    let none = no_emph(c.ours.len(), c.theirs.len());
    if c.kind == ChunkKind::Stable || c.base.len() > EMPH_MAX_LINES || c.ours.len() > EMPH_MAX_LINES
        || c.theirs.len() > EMPH_MAX_LINES {
        none
    } else if c.base.len() == 0 {
        if c.kind == ChunkKind::Conflict {
            cross_fold(slice_ops(c.ours, c.theirs), c.ours, c.theirs)
        } else {
            none
        }
    } else {
        (
            if c.kind == ChunkKind::Ours || c.kind == ChunkKind::Agree || c.kind == ChunkKind::Conflict {
                side_emph_spec(c.base, c.ours)
            } else {
                none.0
            },
            if c.kind == ChunkKind::Theirs || c.kind == ChunkKind::Agree || c.kind == ChunkKind::Conflict {
                side_emph_spec(c.base, c.theirs)
            } else {
                none.1
            },
        )
    }
}

/// The word emphasis of a chunk: per line of each side, the emphasised
/// byte ranges (ascending, not overlapping).
#[derive(Debug)]
pub struct ChunkEmphasis {
    /// One entry per local line
    pub ours: Vec<Vec<(usize, usize)>>,
    /// One entry per remote line
    pub theirs: Vec<Vec<(usize, usize)>>,
}

/// Both sides' emphasis when the sides of a conflict are compared with each other.
fn cross_emphasis(ours: &Vec<String>, theirs: &Vec<String>) -> (r: (Vec<Vec<(usize, usize)>>, Vec<Vec<(usize, usize)>>))
    ensures
        (emph_view(r.0@), emph_view(r.1@)) == cross_fold(
            slice_ops(strings_view(ours@), strings_view(theirs@)),
            strings_view(ours@),
            strings_view(theirs@),
        ),
        lines_in_order(strings_view(ours@), emph_view(r.0@)),
        lines_in_order(strings_view(theirs@), emph_view(r.1@)),
{
    let ghost ov = strings_view(ours@);
    let ghost tv = strings_view(theirs@);
    let ops = diff_slices(ours, theirs);
    let mut eo = empty_lines(ours.len());
    let mut et = empty_lines(theirs.len());
    let mut k: usize = 0;
    while k < ops.len()
        invariant
            0 <= k <= ops@.len(),
            ov == strings_view(ours@),
            tv == strings_view(theirs@),
            ops_in_bounds(ops@, ours@.len() as int, theirs@.len() as int),
            (emph_view(eo@), emph_view(et@)) == cross_fold(ops@.take(k as int), ov, tv),
            eo@.len() == ours@.len(),
            et@.len() == theirs@.len(),
            lines_in_order(ov, emph_view(eo@)),
            lines_in_order(tv, emph_view(et@)),
        decreases ops@.len() - k,
    {
        let op = ops[k];
        proof {
            assert(ops@.take(k + 1).drop_last() =~= ops@.take(k as int));
            assert(ops@.take(k + 1).last() == op);
            assert(ops@[k as int] == op);
        }
        if op.tag == OpTag::Replace {
            let a = op.old_end - op.old_start;
            let c = op.new_end - op.new_start;
            let n = if a < c {
                a
            } else {
                c
            };
            let ghost start = (emph_view(eo@), emph_view(et@));
            let mut j: usize = 0;
            while j < n
                invariant
                    0 <= j <= n,
                    n == pair_count(op),
                    op.old_start + n <= ours@.len(),
                    op.new_start + n <= theirs@.len(),
                    ov == strings_view(ours@),
                    tv == strings_view(theirs@),
                    eo@.len() == ours@.len(),
                    et@.len() == theirs@.len(),
                    start.0.len() == ours@.len(),
                    start.1.len() == theirs@.len(),
                    (emph_view(eo@), emph_view(et@)) == cross_fill(start, ov, tv, op, j as int),
                    lines_in_order(ov, emph_view(eo@)),
                    lines_in_order(tv, emph_view(et@)),
                decreases n - j,
            {
                let o = op.old_start + j;
                let t = op.new_start + j;
                let ol = ours[o].as_str();
                let tl = theirs[t].as_str();
                let for_ours = line_emphasis(tl, ol);
                let for_theirs = line_emphasis(ol, tl);
                let ghost b0 = emph_view(eo@);
                let ghost b1 = emph_view(et@);
                eo.set(o, for_ours);
                et.set(t, for_theirs);
                proof {
                    assert(ov[o as int] == ours@[o as int]@);
                    assert(tv[t as int] == theirs@[t as int]@);
                    assert(emph_view(eo@) =~= b0.update(o as int, ranges_view(for_ours@)));
                    assert(emph_view(et@) =~= b1.update(t as int, ranges_view(for_theirs@)));
                    assert forall|i: int| 0 <= i < emph_view(eo@).len() implies ranges_in_order(
                        ov[i],
                        #[trigger] emph_view(eo@)[i],
                    ) by {
                        if i != o {
                            assert(emph_view(eo@)[i] == b0[i]);
                        }
                    }
                    assert forall|i: int| 0 <= i < emph_view(et@).len() implies ranges_in_order(
                        tv[i],
                        #[trigger] emph_view(et@)[i],
                    ) by {
                        if i != t {
                            assert(emph_view(et@)[i] == b1[i]);
                        }
                    }
                }
                j = j + 1;
            }
        }
        k = k + 1;
    }
    assert(ops@.take(ops@.len() as int) =~= ops@);
    (eo, et)
}

/// The word emphasis of a chunk.
pub fn chunk_emphasis(chunk: &MergeChunk) -> (e: ChunkEmphasis)
    ensures
        (emph_view(e.ours@), emph_view(e.theirs@)) == chunk_emph_spec(chunk@),
        lines_in_order(chunk@.ours, emph_view(e.ours@)),
        lines_in_order(chunk@.theirs, emph_view(e.theirs@)),
{
    let kind = chunk.kind;
    let none_ours = empty_lines(chunk.ours.len());
    let none_theirs = empty_lines(chunk.theirs.len());
    if kind == ChunkKind::Stable || chunk.base.len() > EMPH_MAX_LINES || chunk.ours.len() > EMPH_MAX_LINES
        || chunk.theirs.len() > EMPH_MAX_LINES {
        return ChunkEmphasis { ours: none_ours, theirs: none_theirs };
    }
    if chunk.base.len() == 0 {
        if kind == ChunkKind::Conflict {
            let (o, t) = cross_emphasis(&chunk.ours, &chunk.theirs);
            return ChunkEmphasis { ours: o, theirs: t };
        }
        return ChunkEmphasis { ours: none_ours, theirs: none_theirs };
    }
    let ours = if kind == ChunkKind::Ours || kind == ChunkKind::Agree || kind == ChunkKind::Conflict {
        side_emphasis(&chunk.base, &chunk.ours)
    } else {
        none_ours
    };
    let theirs = if kind == ChunkKind::Theirs || kind == ChunkKind::Agree || kind == ChunkKind::Conflict {
        side_emphasis(&chunk.base, &chunk.theirs)
    } else {
        none_theirs
    };
    ChunkEmphasis { ours, theirs }
}

} // verus!
