//! What a row of a pane shows: the band, the gutter mark, the line number,
//! and the text cut into pieces by the syntax colours and the word
//! emphasis laid over it. The program turns the pieces into terminal spans.

use vstd::prelude::*;

use crate::app::SideState;
use crate::i18n::{I18n, fill, fill_one, tr_f, tr_spec};
use crate::text::{chars_of, decimal, decimal_string};
use crate::ui::panes::{
    CellBudget, HClip, Pane, clip_fold, display_width, hclip, hclip_spec, shift_range, shift_spec, spaces, text_fits,
    text_width, utf8_len, utf8_width,
};
use crate::ui::rows::{Cell, ChangeType, Row};
use crate::ui::theme::{TermColor, Theme, band_spec, pick};

verus! {

/// A piece of a drawn line: text and its colours.
#[derive(Debug, Clone, PartialEq, Eq)]
pub struct Piece {
    pub text: String,
    pub fg: Option<TermColor>,
    pub bg: Option<TermColor>,
}

/// Mathematical view of a piece.
pub struct PieceView {
    pub text: Seq<char>,
    pub fg: Option<TermColor>,
    pub bg: Option<TermColor>,
}

impl View for Piece {
    type V = PieceView;

    open spec fn view(&self) -> PieceView {
        PieceView { text: self.text@, fg: self.fg, bg: self.bg }
    }
}

/// The views of pieces.
pub open spec fn pieces_view(v: Seq<Piece>) -> Seq<PieceView> {
    v.map_values(|p: Piece| p@)
}

/// `x`, at most `len`.
pub open spec fn clamp(x: int, len: int) -> int {
    if x <= len {
        x
    } else {
        len
    }
}

/// Whether a byte offset is an end of a layer range (cut to the text's length).
pub open spec fn is_bound(b: int, len: int, fgs: Seq<(TermColor, (usize, usize))>, emph: Seq<(usize, usize)>) -> bool {
    ||| exists|i: int|
        0 <= i < fgs.len() && (clamp(fgs[i].1.0 as int, len) == b || clamp(fgs[i].1.1 as int, len) == b)
    ||| exists|i: int| 0 <= i < emph.len() && (clamp(emph[i].0 as int, len) == b || clamp(emph[i].1 as int, len) == b)
}

/// Whether a byte offset falls between characters of the text.
pub open spec fn on_char(s: Seq<char>, b: int) -> bool {
    exists|i: int| 0 <= i <= s.len() && utf8_len(s.take(i)) == b
}

/// Whether every end of every layer range (cut to the text's length) falls
/// between characters, so that the text can be cut there.
pub open spec fn bounds_on_chars(s: Seq<char>, fgs: Seq<(TermColor, (usize, usize))>, emph: Seq<(usize, usize)>) -> bool {
    let len = utf8_len(s);
    &&& forall|i: int|
        0 <= i < fgs.len() ==> on_char(s, clamp(#[trigger] fgs[i].1.0 as int, len)) && on_char(
            s,
            clamp(fgs[i].1.1 as int, len),
        )
    &&& forall|i: int|
        0 <= i < emph.len() ==> on_char(s, clamp(#[trigger] emph[i].0 as int, len)) && on_char(
            s,
            clamp(emph[i].1 as int, len),
        )
}

/// Whether the text is cut before character `i`: inside the text, at a
/// byte offset that is an end of a layer range.
pub open spec fn cut_before(s: Seq<char>, i: int, fgs: Seq<(TermColor, (usize, usize))>, emph: Seq<(usize, usize)>) -> bool {
    0 < i < s.len() && is_bound(utf8_len(s.take(i)), utf8_len(s), fgs, emph)
}

/// The pieces of the first `n` characters, as character ranges: a new
/// piece starts at every cut.
pub open spec fn windows(s: Seq<char>, n: int, fgs: Seq<(TermColor, (usize, usize))>, emph: Seq<(usize, usize)>) -> Seq<(int, int)>
    decreases n,
{
    if n <= 0 {
        Seq::empty()
    } else {
        let prev = windows(s, n - 1, fgs, emph);
        if n - 1 == 0 || cut_before(s, n - 1, fgs, emph) {
            prev.push((n - 1, n))
        } else {
            prev.update(prev.len() - 1, (prev.last().0, n))
        }
    }
}

/// The foreground of the first syntax span that holds the byte range `a..b`.
pub open spec fn fg_of(fgs: Seq<(TermColor, (usize, usize))>, a: int, b: int, k: int) -> Option<TermColor>
    decreases fgs.len() - k,
{
    if k < 0 || k >= fgs.len() {
        None
    } else if fgs[k].1.0 <= a && b <= fgs[k].1.1 {
        Some(fgs[k].0)
    } else {
        fg_of(fgs, a, b, k + 1)
    }
}

/// Whether an emphasis range holds the byte range `a..b`.
pub open spec fn emphasised(emph: Seq<(usize, usize)>, a: int, b: int) -> bool {
    exists|i: int| 0 <= i < emph.len() && emph[i].0 <= a && b <= emph[i].1
}

/// The text cut at every end of a syntax span or emphasis range; each piece
/// takes the colour of the first syntax span holding it, and the emphasis
/// background where an emphasis range holds it.
pub open spec fn compose_spec(
    s: Seq<char>,
    fgs: Seq<(TermColor, (usize, usize))>,
    emph: Seq<(usize, usize)>,
    emph_bg: TermColor,
) -> Seq<PieceView> {
    let w = windows(s, s.len() as int, fgs, emph);
    Seq::new(
        w.len(),
        |j: int|
            {
                let a = utf8_len(s.take(w[j].0));
                let b = utf8_len(s.take(w[j].1));
                PieceView {
                    text: s.subrange(w[j].0, w[j].1),
                    fg: fg_of(fgs, a, b, 0),
                    bg: if emphasised(emph, a, b) {
                        Some(emph_bg)
                    } else {
                        None
                    },
                }
            },
    )
}

/// UTF-8 length of a prefix grows by the width of the next character.
proof fn lemma_take_len(s: Seq<char>, i: int)
    requires
        0 <= i < s.len(),
    ensures
        utf8_len(s.take(i + 1)) == utf8_len(s.take(i)) + utf8_width(s[i]),
{
    assert(s.take(i + 1).drop_last() =~= s.take(i));
}

/// UTF-8 length of a prefix is at most `4 * i`.
proof fn lemma_take_bound(s: Seq<char>, i: int)
    requires
        0 <= i <= s.len(),
    ensures
        0 <= utf8_len(s.take(i)) <= 4 * i,
    decreases i,
{
    if i > 0 {
        lemma_take_bound(s, i - 1);
        lemma_take_len(s, i - 1);
    }
}

/// Shape of the windows: they start at 0, follow one another, and end at `n`.
proof fn lemma_windows(s: Seq<char>, n: int, fgs: Seq<(TermColor, (usize, usize))>, emph: Seq<(usize, usize)>)
    requires
        0 <= n,
    ensures
        n == 0 <==> windows(s, n, fgs, emph).len() == 0,
        n > 0 ==> windows(s, n, fgs, emph)[0].0 == 0 && windows(s, n, fgs, emph).last().1 == n,
        forall|j: int|
            0 <= j < windows(s, n, fgs, emph).len() ==> (#[trigger] windows(s, n, fgs, emph)[j]).0 < windows(
                s,
                n,
                fgs,
                emph,
            )[j].1,
    decreases n,
{
    if n > 0 {
        lemma_windows(s, n - 1, fgs, emph);
    }
}

/// Whether a byte offset is an end of one of the layer ranges.
fn bound_at(b: usize, len: usize, fgs: &Vec<(TermColor, (usize, usize))>, emph: &Vec<(usize, usize)>) -> (r: bool)
    ensures
        r == is_bound(b as int, len as int, fgs@, emph@),
{
    let mut i: usize = 0;
    while i < fgs.len()
        invariant
            0 <= i <= fgs@.len(),
            forall|k: int|
                0 <= k < i ==> !(clamp(fgs@[k].1.0 as int, len as int) == b || clamp(
                    fgs@[k].1.1 as int,
                    len as int,
                ) == b),
        decreases fgs@.len() - i,
    {
        let (s, e) = fgs[i].1;
        let cs = if s <= len {
            s
        } else {
            len
        };
        let ce = if e <= len {
            e
        } else {
            len
        };
        if cs == b || ce == b {
            return true;
        }
        i = i + 1;
    }
    let mut k: usize = 0;
    while k < emph.len()
        invariant
            0 <= k <= emph@.len(),
            forall|m: int|
                0 <= m < fgs@.len() ==> !(clamp(fgs@[m].1.0 as int, len as int) == b || clamp(
                    fgs@[m].1.1 as int,
                    len as int,
                ) == b),
            forall|m: int|
                0 <= m < k ==> !(clamp(emph@[m].0 as int, len as int) == b || clamp(emph@[m].1 as int, len as int)
                    == b),
        decreases emph@.len() - k,
    {
        let (s, e) = emph[k];
        let cs = if s <= len {
            s
        } else {
            len
        };
        let ce = if e <= len {
            e
        } else {
            len
        };
        if cs == b || ce == b {
            return true;
        }
        k = k + 1;
    }
    false
}

/// The foreground of the first syntax span that holds `a..b`.
fn fg_at(fgs: &Vec<(TermColor, (usize, usize))>, a: usize, b: usize) -> (r: Option<TermColor>)
    ensures
        r == fg_of(fgs@, a as int, b as int, 0),
{
    let mut k: usize = 0;
    while k < fgs.len()
        invariant
            0 <= k <= fgs@.len(),
            fg_of(fgs@, a as int, b as int, 0) == fg_of(fgs@, a as int, b as int, k as int),
        decreases fgs@.len() - k,
    {
        if fgs[k].1.0 <= a && b <= fgs[k].1.1 {
            return Some(fgs[k].0);
        }
        k = k + 1;
    }
    None
}

/// Whether an emphasis range holds `a..b`.
fn emph_at(emph: &Vec<(usize, usize)>, a: usize, b: usize) -> (r: bool)
    ensures
        r == emphasised(emph@, a as int, b as int),
{
    let mut k: usize = 0;
    while k < emph.len()
        invariant
            0 <= k <= emph@.len(),
            forall|m: int| 0 <= m < k ==> !(emph@[m].0 <= a && b <= emph@[m].1),
        decreases emph@.len() - k,
    {
        if emph[k].0 <= a && b <= emph[k].1 {
            return true;
        }
        k = k + 1;
    }
    false
}

/// The piece of characters `lo..hi` with its colours.
fn piece_of(
    chars: &Vec<char>,
    lo: usize,
    hi: usize,
    a: usize,
    b: usize,
    fgs: &Vec<(TermColor, (usize, usize))>,
    emph: &Vec<(usize, usize)>,
    emph_bg: TermColor,
) -> (p: Piece)
    requires
        lo <= hi <= chars@.len(),
    ensures
        p@ == (PieceView {
            text: chars@.subrange(lo as int, hi as int),
            fg: fg_of(fgs@, a as int, b as int, 0),
            bg: if emphasised(emph@, a as int, b as int) {
                Some(emph_bg)
            } else {
                None
            },
        }),
{
    let text = crate::text::string_of_range(chars, lo, hi);
    let fg = fg_at(fgs, a, b);
    let bg = if emph_at(emph, a, b) {
        Some(emph_bg)
    } else {
        None
    };
    Piece { text, fg, bg }
}

/// Lays the syntax colours and the word emphasis over a text: the text is
/// cut at every end of a range, and each piece gets its colours.
pub fn compose_spans(
    text: &str,
    fgs: &Vec<(TermColor, (usize, usize))>,
    emph: &Vec<(usize, usize)>,
    emph_bg: TermColor,
) -> (out: Vec<Piece>)
    requires
        4 * text@.len() <= usize::MAX,
        bounds_on_chars(text@, fgs@, emph@),
    ensures
        pieces_view(out@) == compose_spec(text@, fgs@, emph@, emph_bg),
{
    let chars = chars_of(text);
    let n = chars.len();
    proof {
        lemma_take_bound(chars@, n as int);
        assert(chars@.take(n as int) =~= chars@);
    }
    let total = byte_len(&chars);
    let mut out: Vec<Piece> = Vec::new();
    if n == 0 {
        assert(pieces_view(out@) =~= compose_spec(text@, fgs@, emph@, emph_bg));
        return out;
    }
    let ghost s = chars@;
    let mut start: usize = 0;
    let mut start_b: usize = 0;
    let mut pos_b: usize = char_len(chars[0]);
    let mut i: usize = 1;
    proof {
        lemma_take_len(s, 0);
        assert(s.take(0) =~= Seq::<char>::empty());
        assert(windows(s, 0, fgs@, emph@).len() == 0);
        assert(windows(s, 1, fgs@, emph@) == windows(s, 0, fgs@, emph@).push((0, 1)));
    }
    while i < n
        invariant
            1 <= i <= n,
            n == s.len(),
            s == chars@,
            s == text@,
            4 * n <= usize::MAX,
            total == utf8_len(s),
            0 <= start < i,
            start_b == utf8_len(s.take(start as int)),
            pos_b == utf8_len(s.take(i as int)),
            windows(s, i as int, fgs@, emph@).len() == out@.len() + 1,
            windows(s, i as int, fgs@, emph@).last() == (start as int, i as int),
            forall|j: int|
                0 <= j < out@.len() ==> #[trigger] out@[j]@ == compose_piece(
                    s,
                    windows(s, i as int, fgs@, emph@)[j],
                    fgs@,
                    emph@,
                    emph_bg,
                ),
        decreases n - i,
    {
        proof {
            lemma_take_len(s, i as int);
            lemma_take_bound(s, (i + 1) as int);
        }
        let cut = bound_at(pos_b, total, fgs, emph);
        let ghost w0 = windows(s, i as int, fgs@, emph@);
        if cut {
            let p = piece_of(&chars, start, i, start_b, pos_b, fgs, emph, emph_bg);
            out.push(p);
            start = i;
            start_b = pos_b;
            proof {
                let w1 = windows(s, i + 1, fgs@, emph@);
                assert(w1 == w0.push((i as int, i + 1)));
                assert forall|j: int| 0 <= j < out@.len() implies #[trigger] out@[j]@ == compose_piece(
                    s,
                    w1[j],
                    fgs@,
                    emph@,
                    emph_bg,
                ) by {
                    assert(w1[j] == w0[j]);
                }
            }
        } else {
            proof {
                let w1 = windows(s, i + 1, fgs@, emph@);
                assert(w1 == w0.update(w0.len() - 1, (start as int, i + 1)));
                assert forall|j: int| 0 <= j < out@.len() implies #[trigger] out@[j]@ == compose_piece(
                    s,
                    w1[j],
                    fgs@,
                    emph@,
                    emph_bg,
                ) by {
                    assert(w1[j] == w0[j]);
                }
            }
        }
        pos_b = pos_b + char_len(chars[i]);
        i = i + 1;
    }
    let p = piece_of(&chars, start, n, start_b, pos_b, fgs, emph, emph_bg);
    out.push(p);
    proof {
        let w = windows(s, n as int, fgs@, emph@);
        assert(pieces_view(out@) =~= compose_spec(text@, fgs@, emph@, emph_bg)) by {
            assert forall|j: int| 0 <= j < out@.len() implies #[trigger] pieces_view(out@)[j] == compose_spec(
                text@,
                fgs@,
                emph@,
                emph_bg,
            )[j] by {
                assert(out@[j]@ == compose_piece(s, w[j], fgs@, emph@, emph_bg));
            }
        }
    }
    out
}

/// The piece a window stands for.
pub open spec fn compose_piece(
    s: Seq<char>,
    w: (int, int),
    fgs: Seq<(TermColor, (usize, usize))>,
    emph: Seq<(usize, usize)>,
    emph_bg: TermColor,
) -> PieceView {
    let a = utf8_len(s.take(w.0));
    let b = utf8_len(s.take(w.1));
    PieceView {
        text: s.subrange(w.0, w.1),
        fg: fg_of(fgs, a, b, 0),
        bg: if emphasised(emph, a, b) {
            Some(emph_bg)
        } else {
            None
        },
    }
}

/// Bytes of a character in UTF-8.
fn char_len(c: char) -> (n: usize)
    ensures
        n == utf8_width(c),
{
    crate::ui::panes::char_len_utf8(c)
}

/// Bytes of a text in UTF-8.
fn byte_len(chars: &Vec<char>) -> (n: usize)
    requires
        4 * chars@.len() <= usize::MAX,
    ensures
        n == utf8_len(chars@),
{
    let mut b: usize = 0;
    let mut i: usize = 0;
    while i < chars.len()
        invariant
            0 <= i <= chars@.len(),
            4 * chars@.len() <= usize::MAX,
            b == utf8_len(chars@.take(i as int)),
        decreases chars@.len() - i,
    {
        proof {
            lemma_take_len(chars@, i as int);
            lemma_take_bound(chars@, (i + 1) as int);
        }
        b = b + char_len(chars[i]);
        i = i + 1;
    }
    assert(chars@.take(chars@.len() as int) =~= chars@);
    b
}

/// The byte offsets between the characters of a text, from 0 to its length.
fn char_offsets(chars: &Vec<char>) -> (v: Vec<usize>)
    requires
        4 * chars@.len() <= usize::MAX,
    ensures
        v@.len() == chars@.len() + 1,
        forall|i: int| 0 <= i <= chars@.len() ==> v@[i] == utf8_len(#[trigger] chars@.take(i)),
{
    let mut v: Vec<usize> = vec![0];
    let mut b: usize = 0;
    let mut i: usize = 0;
    proof {
        assert(chars@.take(0) =~= Seq::<char>::empty());
    }
    while i < chars.len()
        invariant
            0 <= i <= chars@.len(),
            4 * chars@.len() <= usize::MAX,
            v@.len() == i + 1,
            b == utf8_len(chars@.take(i as int)),
            forall|k: int| 0 <= k <= i ==> v@[k] == utf8_len(#[trigger] chars@.take(k)),
        decreases chars@.len() - i,
    {
        proof {
            lemma_take_len(chars@, i as int);
            lemma_take_bound(chars@, (i + 1) as int);
        }
        b = b + char_len(chars[i]);
        v.push(b);
        i = i + 1;
    }
    v
}

/// Whether a byte offset is one of the offsets between characters.
fn in_offsets(v: &Vec<usize>, b: usize) -> (r: bool)
    ensures
        r == exists|i: int| 0 <= i < v@.len() && v@[i] == b,
{
    let mut i: usize = 0;
    while i < v.len()
        invariant
            0 <= i <= v@.len(),
            forall|k: int| 0 <= k < i ==> v@[k] != b,
        decreases v@.len() - i,
    {
        if v[i] == b {
            return true;
        }
        i = i + 1;
    }
    false
}

/// Whether every end of every layer range falls between characters of the
/// text (what `compose_spans` needs).
pub fn ranges_on_chars(text: &str, fgs: &Vec<(TermColor, (usize, usize))>, emph: &Vec<(usize, usize)>) -> (r: bool)
    requires
        4 * text@.len() <= usize::MAX,
    ensures
        r == bounds_on_chars(text@, fgs@, emph@),
{
    let chars = chars_of(text);
    let offs = char_offsets(&chars);
    let len = offs[chars.len()];
    assert(chars@.take(chars@.len() as int) =~= chars@);
    let ghost s = chars@;
    let mut i: usize = 0;
    while i < fgs.len()
        invariant
            0 <= i <= fgs@.len(),
            s == text@,
            len == utf8_len(s),
            offs@.len() == s.len() + 1,
            forall|k: int| 0 <= k <= s.len() ==> offs@[k] == utf8_len(#[trigger] s.take(k)),
            forall|k: int|
                0 <= k < i ==> on_char(s, clamp(#[trigger] fgs@[k].1.0 as int, len as int)) && on_char(
                    s,
                    clamp(fgs@[k].1.1 as int, len as int),
                ),
        decreases fgs@.len() - i,
    {
        let (a, b) = fgs[i].1;
        assert(a == fgs@[i as int].1.0 && b == fgs@[i as int].1.1);
        let ca = if a <= len {
            a
        } else {
            len
        };
        let cb = if b <= len {
            b
        } else {
            len
        };
        let ok_a = in_offsets(&offs, ca);
        let ok_b = in_offsets(&offs, cb);
        proof {
            if ok_a {
                let w = choose|w: int| 0 <= w < offs@.len() && offs@[w] == ca;
                assert(utf8_len(s.take(w)) == ca);
                assert(on_char(s, ca as int));
            }
            if ok_b {
                let w = choose|w: int| 0 <= w < offs@.len() && offs@[w] == cb;
                assert(utf8_len(s.take(w)) == cb);
                assert(on_char(s, cb as int));
            }
            if on_char(s, ca as int) {
                let w = choose|w: int| 0 <= w <= s.len() && utf8_len(s.take(w)) == ca;
                assert(offs@[w] == ca);
            }
            if on_char(s, cb as int) {
                let w = choose|w: int| 0 <= w <= s.len() && utf8_len(s.take(w)) == cb;
                assert(offs@[w] == cb);
            }
        }
        if !ok_a || !ok_b {
            return false;
        }
        assert(clamp(fgs@[i as int].1.0 as int, len as int) == ca && clamp(fgs@[i as int].1.1 as int, len as int) == cb);
        assert(on_char(s, clamp(fgs@[i as int].1.0 as int, len as int)) && on_char(s, clamp(fgs@[i as int].1.1 as int, len as int)));
        assert forall|m: int| 0 <= m < i + 1 implies on_char(s, clamp(#[trigger] fgs@[m].1.0 as int, len as int))
            && on_char(s, clamp(fgs@[m].1.1 as int, len as int)) by {
            if m == i {
            }
        }
        i = i + 1;
    }
    let mut k: usize = 0;
    while k < emph.len()
        invariant
            0 <= k <= emph@.len(),
            s == text@,
            len == utf8_len(s),
            offs@.len() == s.len() + 1,
            forall|m: int| 0 <= m <= s.len() ==> offs@[m] == utf8_len(#[trigger] s.take(m)),
            forall|m: int|
                0 <= m < fgs@.len() ==> on_char(s, clamp(#[trigger] fgs@[m].1.0 as int, len as int)) && on_char(
                    s,
                    clamp(fgs@[m].1.1 as int, len as int),
                ),
            forall|m: int|
                0 <= m < k ==> on_char(s, clamp(#[trigger] emph@[m].0 as int, len as int)) && on_char(
                    s,
                    clamp(emph@[m].1 as int, len as int),
                ),
        decreases emph@.len() - k,
    {
        let (a, b) = emph[k];
        assert(a == emph@[k as int].0 && b == emph@[k as int].1);
        let ca = if a <= len {
            a
        } else {
            len
        };
        let cb = if b <= len {
            b
        } else {
            len
        };
        let ok_a = in_offsets(&offs, ca);
        let ok_b = in_offsets(&offs, cb);
        proof {
            if ok_a {
                let w = choose|w: int| 0 <= w < offs@.len() && offs@[w] == ca;
                assert(utf8_len(s.take(w)) == ca);
                assert(on_char(s, ca as int));
            }
            if ok_b {
                let w = choose|w: int| 0 <= w < offs@.len() && offs@[w] == cb;
                assert(utf8_len(s.take(w)) == cb);
                assert(on_char(s, cb as int));
            }
            if on_char(s, ca as int) {
                let w = choose|w: int| 0 <= w <= s.len() && utf8_len(s.take(w)) == ca;
                assert(offs@[w] == ca);
            }
            if on_char(s, cb as int) {
                let w = choose|w: int| 0 <= w <= s.len() && utf8_len(s.take(w)) == cb;
                assert(offs@[w] == cb);
            }
        }
        if !ok_a || !ok_b {
            return false;
        }
        assert(clamp(emph@[k as int].0 as int, len as int) == ca && clamp(emph@[k as int].1 as int, len as int) == cb);
        assert(on_char(s, clamp(emph@[k as int].0 as int, len as int)) && on_char(s, clamp(emph@[k as int].1 as int, len as int)));
        assert forall|m: int| 0 <= m < k + 1 implies on_char(s, clamp(#[trigger] emph@[m].0 as int, len as int))
            && on_char(s, clamp(emph@[m].1 as int, len as int)) by {
            if m == k {
            }
        }
        k = k + 1;
    }
    true
}

/// The gutter mark of a row in a pane: `»` (local) or `«` (remote) in the
/// change's accent while that side waits for a decision, `✓` in green once
/// taken, `✗` dimmed once ignored, a blank otherwise (always in the result
/// pane, and for a pending side of a resolved chunk).
pub open spec fn gutter_spec(row: Row, pane: Pane, t: Theme) -> PieceView {
    let blank = PieceView { text: " "@, fg: None, bg: None };
    let (state, arrow) = match pane {
        Pane::Local => (row.ours_state, "\u{bb}"@),
        Pane::Remote => (row.theirs_state, "\u{ab}"@),
        Pane::Result => (None, " "@),
    };
    match state {
        Some(SideState::Pending) => if !row.resolved {
            PieceView { text: arrow, fg: Some(crate::ui::theme::accent_spec(t, row.change)), bg: None }
        } else {
            blank
        },
        Some(SideState::Applied) => PieceView { text: "\u{2713}"@, fg: Some(t.green), bg: None },
        Some(SideState::Ignored) => PieceView { text: "\u{2717}"@, fg: Some(t.fg_dim), bg: None },
        None => blank,
    }
}

/// The gutter mark of a row in a pane.
pub fn gutter_symbol(row: &Row, pane: Pane, theme: &Theme) -> (p: Piece)
    ensures
        p@ == gutter_spec(*row, pane, *theme),
{
    let (state, arrow) = match pane {
        Pane::Local => (row.ours_state, "\u{bb}"),
        Pane::Remote => (row.theirs_state, "\u{ab}"),
        Pane::Result => (None, " "),
    };
    match state {
        Some(SideState::Pending) => if !row.resolved {
            Piece { text: String::from_str(arrow), fg: Some(theme.accent(row.change)), bg: None }
        } else {
            Piece { text: String::from_str(" "), fg: None, bg: None }
        },
        Some(SideState::Applied) => Piece { text: String::from_str("\u{2713}"), fg: Some(theme.green), bg: None },
        Some(SideState::Ignored) => Piece { text: String::from_str("\u{2717}"), fg: Some(theme.fg_dim), bg: None },
        None => Piece { text: String::from_str(" "), fg: None, bg: None },
    }
}

/// The band behind a row in a pane: only in the result pane and in the
/// panes of the sides that changed, only while the chunk is unresolved,
/// in the change type's colour (deeper for the current chunk).
pub fn cell_band(row: &Row, pane: Pane, current: bool, theme: &Theme) -> (c: Option<TermColor>)
    ensures
        c == if (match pane {
            Pane::Local => row.ours_state is Some,
            Pane::Remote => row.theirs_state is Some,
            Pane::Result => true,
        }) && !row.resolved {
            crate::ui::theme::band_spec(*theme, row.change, current)
        } else {
            None
        },
{
    let banded = match pane {
        Pane::Local => row.ours_state.is_some(),
        Pane::Remote => row.theirs_state.is_some(),
        Pane::Result => true,
    };
    if banded && !row.resolved {
        theme.band_bg(row.change, current)
    } else {
        None
    }
}

/// Whether a row belongs to the chunk under the cursor (a stable chunk never does).
pub fn is_current(row: &Row, cursor: usize) -> (r: bool)
    ensures
        r == (row.chunk == cursor && row.change != ChangeType::Unchanged),
{
    row.chunk == cursor && row.change != ChangeType::Unchanged
}

/// A line number right-aligned in `width` columns, then a space.
pub fn number_text(no: usize, width: usize) -> (s: String)
    ensures
        s@ == Seq::new(
            (if width > decimal(no as nat).len() {
                width - decimal(no as nat).len()
            } else {
                0
            }) as nat,
            |i: int| ' ',
        ) + decimal(no as nat) + " "@,
{
    let d = decimal_string(no);
    let dl = chars_of(d.as_str()).len();
    let pad = if width > dl {
        width - dl
    } else {
        0
    };
    let mut s = crate::ui::menu::repeat_char(' ', pad);
    s.append(d.as_str());
    s.append(" ");
    s
}

/// The text of a fold row: a plain line in the side panes; in the result
/// pane the count of folded lines, shortened on narrower panes, down to a
/// plain line. Also whether it is centred.
pub fn fold_text(i18n: &I18n, n: usize, pane: Pane, inner: u16) -> (r: (String, bool))
    ensures
        r.1 == (pane == Pane::Result),
        pane != Pane::Result || inner < 12 ==> r.0@ == Seq::new(inner as nat, |i: int| '\u{2500}'),
        pane == Pane::Result && inner >= 30 ==> r.0@ == fill_one(tr_spec(*i18n, "ui.fold"@), "n"@, decimal(n as nat)),
        pane == Pane::Result && 12 <= inner < 30 ==> r.0@ == "\u{2500} \u{22ef} "@ + decimal(n as nat) + " \u{22ef} \u{2500}"@,
{
    if pane != Pane::Result {
        return (crate::ui::menu::repeat_char('\u{2500}', inner as usize), false);
    }
    if inner >= 30 {
        let args = vec![(String::from_str("n"), decimal_string(n))];
        let t = tr_f(i18n, "ui.fold", &args);
        proof {
            reveal_with_fuel(fill, 2);
        }
        (t, true)
    } else if inner >= 12 {
        let mut s = String::from_str("\u{2500} \u{22ef} ");
        let d = decimal_string(n);
        s.append(d.as_str());
        s.append(" \u{22ef} \u{2500}");
        (s, true)
    } else {
        (crate::ui::menu::repeat_char('\u{2500}', inner as usize), true)
    }
}

/// How a line is fitted into the text columns of a pane.
#[derive(Debug, Clone, Copy, PartialEq, Eq, Structural)]
pub struct ClipWindow {
    /// Nothing to cut: no horizontal scroll and the line fits
    pub whole: bool,
    /// An ellipsis marks text cut on the left
    pub lead: bool,
    /// An ellipsis marks text cut on the right
    pub tail: bool,
    /// Columns skipped from the start of the line
    pub skip: usize,
    /// Columns taken after them
    pub take: usize,
}

/// How a line `total` columns wide fits into `content` columns scrolled
/// by `hscroll`: whole when unscrolled and narrow enough; else with an
/// ellipsis column at each edge where text lies beyond it.
pub fn clip_window(total: usize, content: usize, hscroll: usize) -> (w: ClipWindow)
    requires
        hscroll + content + 1 <= usize::MAX,
    ensures
        w.whole == (hscroll == 0 && total <= content),
        w.lead == (hscroll > 0),
        w.tail == (total > hscroll + content),
        w.skip == hscroll + if w.lead {
            1int
        } else {
            0
        },
        w.take == if content >= (if w.lead {
            1int
        } else {
            0
        }) + (if w.tail {
            1int
        } else {
            0
        }) {
            content - (if w.lead {
                1int
            } else {
                0
            }) - (if w.tail {
                1int
            } else {
                0
            })
        } else {
            0
        },
{
    let lead = hscroll > 0;
    let tail = total > hscroll + content;
    let edges: usize = (if lead {
        1
    } else {
        0
    }) + (if tail {
        1
    } else {
        0
    });
    ClipWindow {
        whole: hscroll == 0 && total <= content,
        lead,
        tail,
        skip: hscroll + if lead {
            1
        } else {
            0
        },
        take: if content >= edges {
            content - edges
        } else {
            0
        },
    }
}

/// A pane line as drawn: the band behind it and its pieces.
#[derive(Debug)]
pub struct CellLine {
    /// Background of the whole line, if it is banded
    pub bg: Option<TermColor>,
    /// The pieces, left to right
    pub pieces: Vec<Piece>,
}

/// A piece of plain text.
pub open spec fn plain(t: Seq<char>) -> PieceView {
    PieceView { text: t, fg: None, bg: None }
}

/// The ellipsis marking text cut at an edge.
pub open spec fn ellipsis(dim: TermColor) -> PieceView {
    PieceView { text: "\u{2026}"@, fg: Some(dim), bg: None }
}

/// The background of emphasised words (see `Theme::emph_bg`).
pub open spec fn emph_spec(t: Theme, change: ChangeType, current: bool) -> TermColor {
    match change {
        ChangeType::Added => pick(t.emph_added, current),
        ChangeType::Deleted => pick(t.emph_deleted, current),
        ChangeType::Conflict => pick(t.emph_conflict, current),
        _ => pick(t.emph_modified, current),
    }
}

/// A text with its layers laid over it: plain without layers, or when a
/// range ends inside a character; else cut into coloured pieces.
pub open spec fn layered_spec(
    text: Seq<char>,
    fgs: Seq<(TermColor, (usize, usize))>,
    emph: Seq<(usize, usize)>,
    emph_bg: TermColor,
) -> Seq<PieceView> {
    if (fgs.len() == 0 && emph.len() == 0) || !bounds_on_chars(text, fgs, emph) {
        seq![plain(text)]
    } else {
        compose_spec(text, fgs, emph, emph_bg)
    }
}

/// The syntax colours moved into a clipped line (those outside it dropped).
pub open spec fn shift_fgs(fgs: Seq<(TermColor, (usize, usize))>, span: (int, int), lp: int) -> Seq<
    (TermColor, (usize, usize)),
>
    decreases fgs.len(),
{
    if fgs.len() == 0 {
        Seq::empty()
    } else {
        let prev = shift_fgs(fgs.drop_last(), span, lp);
        let f = fgs.last();
        match shift_spec((f.1.0 as int, f.1.1 as int), span, lp) {
            Some((a, b)) => prev.push((f.0, (a as usize, b as usize))),
            None => prev,
        }
    }
}

/// The emphasis moved into a clipped line (ranges outside it dropped).
pub open spec fn shift_emph(emph: Seq<(usize, usize)>, span: (int, int), lp: int) -> Seq<(usize, usize)>
    decreases emph.len(),
{
    if emph.len() == 0 {
        Seq::empty()
    } else {
        let prev = shift_emph(emph.drop_last(), span, lp);
        let r = emph.last();
        match shift_spec((r.0 as int, r.1 as int), span, lp) {
            Some((a, b)) => prev.push((a as usize, b as usize)),
            None => prev,
        }
    }
}

/// How a line `total` columns wide fits `content` columns scrolled by `hscroll`.
pub open spec fn window_spec(total: int, content: int, hscroll: int) -> ClipWindow {
    let lead = hscroll > 0;
    let tail = total > hscroll + content;
    let edges: int = (if lead {
        1int
    } else {
        0
    }) + (if tail {
        1int
    } else {
        0
    });
    ClipWindow {
        whole: hscroll == 0 && total <= content,
        lead,
        tail,
        skip: (hscroll + if lead {
            1int
        } else {
            0
        }) as usize,
        take: (if content >= edges {
            content - edges
        } else {
            0
        }) as usize,
    }
}

/// The text of a line fitted into the text columns: whole when it fits
/// unscrolled; else the visible columns with their layers moved along, an
/// ellipsis at each edge where text lies beyond it, and spaces before the
/// right one where a wide character did not fit.
pub open spec fn text_part(
    text: Seq<char>,
    content: int,
    hscroll: int,
    fgs: Seq<(TermColor, (usize, usize))>,
    emph: Seq<(usize, usize)>,
    emph_bg: TermColor,
    dim: TermColor,
) -> Seq<PieceView> {
    let w = window_spec(text_width(text), content, hscroll);
    if w.whole {
        layered_spec(text, fgs, emph, emph_bg)
    } else {
        let (ct, lo, hi, lp, cols) = hclip_spec(text, w.skip as int, w.take as int);
        let span = (utf8_len(text.take(lo)), utf8_len(text.take(hi)));
        let head = if w.lead {
            seq![ellipsis(dim)]
        } else {
            Seq::empty()
        };
        let tail = if w.tail {
            (if w.take > cols {
                seq![plain(spaces(w.take - cols))]
            } else {
                Seq::empty()
            }).push(ellipsis(dim))
        } else {
            Seq::empty()
        };
        head + layered_spec(ct, shift_fgs(fgs, span, lp), shift_emph(emph, span, lp), emph_bg) + tail
    }
}

/// The cell of a row in a pane.
pub open spec fn pane_cell(row: Row, pane: Pane) -> Cell {
    match pane {
        Pane::Local => row.ours,
        Pane::Result => row.result,
        Pane::Remote => row.theirs,
    }
}

/// The band behind a row in a pane: only on a pane the chunk changes (and
/// the result pane), only while the chunk is unresolved.
pub open spec fn band_of(row: Row, pane: Pane, current: bool, t: Theme) -> Option<TermColor> {
    if (match pane {
        Pane::Local => row.ours_state is Some,
        Pane::Remote => row.theirs_state is Some,
        Pane::Result => true,
    }) && !row.resolved {
        band_spec(t, row.change, current)
    } else {
        None
    }
}

/// A line number right-aligned in `width` columns, then a space.
pub open spec fn number_spec(no: int, width: int) -> Seq<char> {
    let d = decimal(no as nat);
    spaces(
        if width > d.len() {
            width - d.len()
        } else {
            0
        },
    ) + d + " "@
}

/// A row of a pane as drawn: the band; then the gutter mark and a space
/// when the gutter shows; then nothing for an empty cell, the pending mark
/// for a placeholder, or the line number (when numbers show) and the text.
pub open spec fn cell_line_spec(
    row: Row,
    pane: Pane,
    cursor: usize,
    b: CellBudget,
    t: Theme,
    i: I18n,
    emph: Seq<(usize, usize)>,
    fgs: Seq<(TermColor, (usize, usize))>,
) -> (Option<TermColor>, Seq<PieceView>) {
    let current = row.chunk == cursor && row.change != ChangeType::Unchanged;
    let g = if b.gutter {
        seq![gutter_spec(row, pane, t), plain(" "@)]
    } else {
        Seq::empty()
    };
    let pieces = match pane_cell(row, pane) {
        Cell::Empty => g,
        Cell::Placeholder => g.push(PieceView { text: tr_spec(i, "ui.pending"@), fg: Some(t.placeholder_fg), bg: None }),
        Cell::Line { no, offset, text } => g + (if b.no_width > 0 {
            seq![
                PieceView {
                    text: number_spec(no as int, b.no_width as int),
                    fg: Some(
                        if current {
                            t.fg_bright
                        } else {
                            t.fg_dim
                        },
                    ),
                    bg: None,
                },
            ]
        } else {
            Seq::empty()
        }) + text_part(text@, b.content as int, b.hscroll as int, fgs, emph, emph_spec(t, row.change, current), t.fg_dim),
    };
    (band_of(row, pane, current, t), pieces)
}

/// A text with its layers laid over it.
fn layered(
    text: &str,
    fgs: &Vec<(TermColor, (usize, usize))>,
    emph: &Vec<(usize, usize)>,
    emph_bg: TermColor,
) -> (out: Vec<Piece>)
    requires
        4 * text@.len() <= usize::MAX,
    ensures
        pieces_view(out@) == layered_spec(text@, fgs@, emph@, emph_bg),
{
    if (fgs.len() == 0 && emph.len() == 0) || !ranges_on_chars(text, fgs, emph) {
        let v = vec![Piece { text: String::from_str(text), fg: None, bg: None }];
        assert(pieces_view(v@) =~= seq![plain(text@)]);
        v
    } else {
        compose_spans(text, fgs, emph, emph_bg)
    }
}

/// The syntax colours moved into a clipped line.
fn shifted_fgs(fgs: &Vec<(TermColor, (usize, usize))>, clip: &HClip) -> (out: Vec<(TermColor, (usize, usize))>)
    requires
        clip.span.end + clip.lead_pad <= usize::MAX,
    ensures
        out@ == shift_fgs(fgs@, (clip.span.start as int, clip.span.end as int), clip.lead_pad as int),
{
    let ghost span = (clip.span.start as int, clip.span.end as int);
    let ghost lp = clip.lead_pad as int;
    let mut out: Vec<(TermColor, (usize, usize))> = Vec::new();
    let mut i: usize = 0;
    while i < fgs.len()
        invariant
            0 <= i <= fgs@.len(),
            clip.span.end + clip.lead_pad <= usize::MAX,
            span == (clip.span.start as int, clip.span.end as int),
            lp == clip.lead_pad as int,
            out@ == shift_fgs(fgs@.take(i as int), span, lp),
        decreases fgs@.len() - i,
    {
        proof {
            assert(fgs@.take(i + 1).drop_last() =~= fgs@.take(i as int));
            assert(fgs@.take(i + 1).last() == fgs@[i as int]);
        }
        let (c, (a, b)) = fgs[i];
        match shift_range(&(a..b), clip) {
            Some(r) => out.push((c, (r.start, r.end))),
            None => {},
        }
        i = i + 1;
    }
    assert(fgs@.take(fgs@.len() as int) =~= fgs@);
    out
}

/// The emphasis moved into a clipped line.
fn shifted_emph(emph: &Vec<(usize, usize)>, clip: &HClip) -> (out: Vec<(usize, usize)>)
    requires
        clip.span.end + clip.lead_pad <= usize::MAX,
    ensures
        out@ == shift_emph(emph@, (clip.span.start as int, clip.span.end as int), clip.lead_pad as int),
{
    let ghost span = (clip.span.start as int, clip.span.end as int);
    let ghost lp = clip.lead_pad as int;
    let mut out: Vec<(usize, usize)> = Vec::new();
    let mut i: usize = 0;
    while i < emph.len()
        invariant
            0 <= i <= emph@.len(),
            clip.span.end + clip.lead_pad <= usize::MAX,
            span == (clip.span.start as int, clip.span.end as int),
            lp == clip.lead_pad as int,
            out@ == shift_emph(emph@.take(i as int), span, lp),
        decreases emph@.len() - i,
    {
        proof {
            assert(emph@.take(i + 1).drop_last() =~= emph@.take(i as int));
            assert(emph@.take(i + 1).last() == emph@[i as int]);
        }
        let (a, b) = emph[i];
        match shift_range(&(a..b), clip) {
            Some(r) => out.push((r.start, r.end)),
            None => {},
        }
        i = i + 1;
    }
    assert(emph@.take(emph@.len() as int) =~= emph@);
    out
}

/// Where the visible text of a clip starts and ends stays inside the line,
/// and the padding is not negative.
proof fn lemma_clip_fold_range(s: Seq<char>, skip: int, take: int)
    ensures
        clip_fold(s, skip, take).start matches Some(k) ==> 0 <= k <= s.len(),
        clip_fold(s, skip, take).end matches Some(k) ==> 0 <= k <= s.len(),
        clip_fold(s, skip, take).lead_pad >= 0,
    decreases s.len(),
{
    if s.len() > 0 {
        lemma_clip_fold_range(s.drop_last(), skip, take);
    }
}

/// The text of a line fitted into the text columns of a pane.
fn fit_text(
    text: &str,
    b: &CellBudget,
    fgs: &Vec<(TermColor, (usize, usize))>,
    emph: &Vec<(usize, usize)>,
    emph_bg: TermColor,
    dim: TermColor,
) -> (out: Vec<Piece>)
    requires
        text_fits(text@),
        b.content <= u16::MAX,
        b.hscroll + b.content + 1 <= usize::MAX,
    ensures
        pieces_view(out@) == text_part(text@, b.content as int, b.hscroll as int, fgs@, emph@, emph_bg, dim),
{
    let total = display_width(text);
    let w = clip_window(total, b.content, b.hscroll);
    assert(w == window_spec(text_width(text@), b.content as int, b.hscroll as int));
    if w.whole {
        return layered(text, fgs, emph, emph_bg);
    }
    let clip = hclip(text, w.skip, w.take);
    let ghost parts = hclip_spec(text@, w.skip as int, w.take as int);
    let ghost span = (utf8_len(text@.take(parts.1)), utf8_len(text@.take(parts.2)));
    proof {
        lemma_clip_fold_range(text@, w.skip as int, w.take as int);
        lemma_take_bound(text@, parts.2);
    }
    let sf = shifted_fgs(fgs, &clip);
    let se = shifted_emph(emph, &clip);
    let ghost head: Seq<PieceView> = if w.lead {
        seq![ellipsis(dim)]
    } else {
        Seq::empty()
    };
    let mut out: Vec<Piece> = Vec::new();
    if w.lead {
        out.push(Piece { text: String::from_str("\u{2026}"), fg: Some(dim), bg: None });
    }
    assert(pieces_view(out@) =~= head);
    let mut mid = layered(clip.text.as_str(), &sf, &se, emph_bg);
    let ghost body = pieces_view(mid@);
    assert(body == layered_spec(parts.0, shift_fgs(fgs@, span, parts.3), shift_emph(emph@, span, parts.3), emph_bg));
    out.append(&mut mid);
    assert(pieces_view(out@) =~= head + body);
    let ghost tail: Seq<PieceView> = if w.tail {
        (if w.take > parts.4 {
            seq![plain(spaces(w.take - parts.4))]
        } else {
            Seq::empty()
        }).push(ellipsis(dim))
    } else {
        Seq::empty()
    };
    if w.tail {
        let ghost before = pieces_view(out@);
        if w.take > clip.cols {
            out.push(Piece { text: crate::ui::menu::repeat_char(' ', w.take - clip.cols), fg: None, bg: None });
        }
        out.push(Piece { text: String::from_str("\u{2026}"), fg: Some(dim), bg: None });
        assert(pieces_view(out@) =~= before + tail);
    }
    assert(pieces_view(out@) =~= head + body + tail);
    out
}

/// Draws one row of a pane: its band and its pieces. `emph` and `fgs` are
/// the word emphasis and the syntax colours of the row's line in that pane.
pub fn cell_line(
    row: &Row,
    pane: Pane,
    cursor: usize,
    b: &CellBudget,
    theme: &Theme,
    i18n: &I18n,
    emph: &Vec<(usize, usize)>,
    fgs: &Vec<(TermColor, (usize, usize))>,
) -> (l: CellLine)
    requires
        pane_cell(*row, pane) matches Cell::Line { text, .. } ==> text_fits(text@),
        b.content <= u16::MAX,
        b.hscroll + b.content + 1 <= usize::MAX,
    ensures
        (l.bg, pieces_view(l.pieces@)) == cell_line_spec(*row, pane, cursor, *b, *theme, *i18n, emph@, fgs@),
{
    let current = is_current(row, cursor);
    let bg = cell_band(row, pane, current, theme);
    let mut pieces: Vec<Piece> = Vec::new();
    if b.gutter {
        pieces.push(gutter_symbol(row, pane, theme));
        pieces.push(Piece { text: String::from_str(" "), fg: None, bg: None });
    }
    let ghost g = pieces_view(pieces@);
    assert(g =~= if b.gutter {
        seq![gutter_spec(*row, pane, *theme), plain(" "@)]
    } else {
        Seq::empty()
    });
    let cell = match pane {
        Pane::Local => &row.ours,
        Pane::Result => &row.result,
        Pane::Remote => &row.theirs,
    };
    match cell {
        Cell::Empty => {},
        Cell::Placeholder => {
            pieces.push(Piece { text: crate::i18n::tr(i18n, "ui.pending"), fg: Some(theme.placeholder_fg), bg: None });
            assert(pieces_view(pieces@) =~= g.push(
                PieceView { text: tr_spec(*i18n, "ui.pending"@), fg: Some(theme.placeholder_fg), bg: None },
            ));
        },
        Cell::Line { no, text, .. } => {
            if b.no_width > 0 {
                let fg = if current {
                    theme.fg_bright
                } else {
                    theme.fg_dim
                };
                pieces.push(Piece { text: number_text(*no, b.no_width), fg: Some(fg), bg: None });
            }
            let ghost gn = pieces_view(pieces@);
            let mut rest = fit_text(text.as_str(), b, fgs, emph, theme.emph_bg(row.change, current), theme.fg_dim);
            let ghost r = pieces_view(rest@);
            pieces.append(&mut rest);
            assert(pieces_view(pieces@) =~= gn + r);
        },
    }
    CellLine { bg, pieces }
}

} // verus!
