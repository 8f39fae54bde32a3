//! Pane layout: titles, the room a row gets, display widths and horizontal
//! clipping of lines that hold wide characters.

use std::ops::Range;

use vstd::prelude::*;

use crate::app::FileMerge;
use crate::merge::opt_view;
use crate::text::{chars_of, decimal, decimal_string};
use crate::ui::rows::{Cell, Row};

verus! {

/// One of the three panes.
#[derive(Debug, Clone, Copy, PartialEq, Eq, Structural)]
pub enum Pane {
    /// Local (left, ours)
    Local,
    /// Merge result (middle)
    Result,
    /// Remote (right, theirs)
    Remote,
}

/// Columns scrolled by one horizontal step.
pub const HSCROLL_STEP: usize = 8;

/// The room a row gets inside one pane; a narrow pane drops the line
/// numbers first, then the gutter.
#[derive(Debug, Clone, Copy)]
pub struct CellBudget {
    /// Whether the gutter column (action mark and a space) shows
    pub gutter: bool,
    /// Width of the line number column; 0 when numbers are hidden
    pub no_width: usize,
    /// Columns left for the text
    pub content: usize,
    /// Horizontal scroll offset (shared by the three panes)
    pub hscroll: usize,
}

/// The budget of a pane `inner` columns wide whose largest line number is
/// `max_no`: numbers at least three digits wide from 24 columns on, the
/// gutter alone from 14, nothing below.
pub open spec fn budget_spec(inner: int, max_no: nat) -> (bool, int, int) {
    let digits = if decimal(max_no).len() >= 3 {
        decimal(max_no).len() as int
    } else {
        3
    };
    let (gutter, no_width) = if inner >= 24 {
        (true, digits)
    } else if inner >= 14 {
        (true, 0)
    } else {
        (false, 0)
    };
    let prefix = (if gutter {
        2int
    } else {
        0
    }) + if no_width > 0 {
        no_width + 1
    } else {
        0
    };
    (gutter, no_width, if inner >= prefix {
        inner - prefix
    } else {
        0
    })
}

/// Digits of a number below `10^k` are at most `k`.
proof fn lemma_decimal_len_bound(n: nat, k: nat, p: nat)
    requires
        k >= 1,
        p == pow10(k),
        n < p,
    ensures
        decimal(n).len() <= k,
    decreases k,
{
    if n >= 10 {
        assert(k > 1) by {
            if k == 1 {
                assert(pow10(1) == 10 * pow10(0));
            }
        }
        assert(p == 10 * pow10((k - 1) as nat));
        assert(n / 10 < pow10((k - 1) as nat)) by (nonlinear_arith)
            requires
                n < p,
                p == 10 * pow10((k - 1) as nat),
        ;
        lemma_decimal_len_bound(n / 10, (k - 1) as nat, pow10((k - 1) as nat));
    }
}

/// Powers of ten.
pub open spec fn pow10(k: nat) -> nat
    decreases k,
{
    if k == 0 {
        1
    } else {
        10 * pow10((k - 1) as nat)
    }
}

/// The budget of a pane; `hscroll` starts at 0 and is settled by drawing.
pub fn cell_budget(inner: u16, max_no: usize) -> (b: CellBudget)
    ensures
        (b.gutter, b.no_width as int, b.content as int) == budget_spec(inner as int, max_no as nat),
        b.hscroll == 0,
{
    let digits = decimal_string(max_no);
    let dl = chars_of(digits.as_str()).len();
    proof {
        reveal_with_fuel(pow10, 21);
        assert(pow10(20) == 100000000000000000000nat);
        lemma_decimal_len_bound(max_no as nat, 20, pow10(20));
    }
    let no_width = if dl >= 3 {
        dl
    } else {
        3
    };
    let (gutter, no_width) = if inner >= 24 {
        (true, no_width)
    } else if inner >= 14 {
        (true, 0)
    } else {
        (false, 0)
    };
    let prefix: usize = (if gutter {
        2
    } else {
        0
    }) + if no_width > 0 {
        no_width + 1
    } else {
        0
    };
    let inner = inner as usize;
    let content = if inner >= prefix {
        inner - prefix
    } else {
        0
    };
    CellBudget { gutter, no_width, content, hscroll: 0 }
}

/// Title of a pane, drawn into its border: its name, with the branch label
/// when there is one.
pub open spec fn title_spec(pane: Pane, ours: Option<Seq<char>>, theirs: Option<Seq<char>>) -> Seq<char> {
    match pane {
        Pane::Local => match ours {
            Some(l) => " LOCAL \u{b7} "@ + l + " "@,
            None => " LOCAL (ours) "@,
        },
        Pane::Result => " RESULT "@,
        Pane::Remote => match theirs {
            Some(l) => " REMOTE \u{b7} "@ + l + " "@,
            None => " REMOTE (theirs) "@,
        },
    }
}

/// Title of a pane.
pub fn pane_title(pane: Pane, merge: &FileMerge) -> (t: String)
    ensures
        t@ == title_spec(pane, opt_view(merge.ours_label), opt_view(merge.theirs_label)),
{
    let label = match pane {
        Pane::Local => &merge.ours_label,
        Pane::Result => return String::from_str(" RESULT "),
        Pane::Remote => &merge.theirs_label,
    };
    match label {
        Some(l) => {
            let mut t = if pane == Pane::Local {
                String::from_str(" LOCAL \u{b7} ")
            } else {
                String::from_str(" REMOTE \u{b7} ")
            };
            t.append(l.as_str());
            t.append(" ");
            t
        },
        None => if pane == Pane::Local {
            String::from_str(" LOCAL (ours) ")
        } else {
            String::from_str(" REMOTE (theirs) ")
        },
    }
}

/// Display width of a character as `unicode-width` reports it.
pub uninterp spec fn unicode_width(c: char) -> Option<usize>;

/// `UnicodeWidthChar::width` of unicode-width: the columns a character
/// fills, None for a control character. Claimed, as its source shows:
/// printable ASCII fills one column; C0 controls, DEL and the C1 controls
/// have no width; every character from U+00A0 on has one, taken from a
/// table of bytes, so at most 255. The other widths are only named.
#[verifier::external_body]
fn char_width(c: char) -> (w: Option<usize>)
    ensures
        w == unicode_width(c),
        ('\u{20}' <= c && c < '\u{7f}') ==> w == Some(1usize),
        (c < '\u{20}' || ('\u{7f}' <= c && c < '\u{a0}')) ==> w is None,
        c >= '\u{a0}' ==> w is Some,
        w matches Some(n) ==> n <= 255,
{
    unicode_width::UnicodeWidthChar::width(c)
}

/// Columns a character takes in a pane (a control character takes none).
pub open spec fn col_width(c: char) -> int {
    match unicode_width(c) {
        Some(n) => n as int,
        None => 0,
    }
}

/// Columns a text takes in a pane.
pub open spec fn text_width(s: Seq<char>) -> int
    decreases s.len(),
{
    if s.len() == 0 {
        0
    } else {
        text_width(s.drop_last()) + col_width(s.last())
    }
}

/// Columns a character takes (its width, or none for a control character).
fn width_of(c: char) -> (w: usize)
    ensures
        w == col_width(c),
        w <= 255,
{
    match char_width(c) {
        Some(n) => n,
        None => 0,
    }
}

/// Texts whose widths and byte lengths fit in `usize` with room to spare.
pub open spec fn text_fits(s: Seq<char>) -> bool {
    s.len() * 255 <= usize::MAX
}

/// Columns a line takes (wide CJK characters count two).
pub fn display_width(text: &str) -> (w: usize)
    requires
        text_fits(text@),
    ensures
        w == text_width(text@),
{
    let chars = chars_of(text);
    let mut w: usize = 0;
    let mut i: usize = 0;
    while i < chars.len()
        invariant
            0 <= i <= chars@.len(),
            chars@ == text@,
            text_fits(text@),
            w == text_width(chars@.take(i as int)),
            w <= 255 * i,
        decreases chars@.len() - i,
    {
        let c = chars[i];
        let cw = width_of(c);
        proof {
            assert(chars@.take(i + 1).drop_last() =~= chars@.take(i as int));
        }
        w = w + cw;
        i = i + 1;
    }
    assert(chars@.take(chars@.len() as int) =~= chars@);
    w
}

/// Bytes of a character in UTF-8.
pub open spec fn utf8_width(c: char) -> int {
    if (c as u32) < 0x80 {
        1
    } else if (c as u32) < 0x800 {
        2
    } else if (c as u32) < 0x10000 {
        3
    } else {
        4
    }
}

/// Bytes of a text in UTF-8.
pub open spec fn utf8_len(s: Seq<char>) -> int
    decreases s.len(),
{
    if s.len() == 0 {
        0
    } else {
        utf8_len(s.drop_last()) + utf8_width(s.last())
    }
}

/// Bytes of a character in UTF-8 (`char::len_utf8`).
pub(crate) fn char_len_utf8(c: char) -> (n: usize)
    ensures
        n == utf8_width(c),
{
    let v = c as u32;
    if v < 0x80 {
        1
    } else if v < 0x800 {
        2
    } else if v < 0x10000 {
        3
    } else {
        4
    }
}

/// Byte offset of character `k` of `chars`.
fn byte_offset(chars: &Vec<char>, k: usize) -> (b: usize)
    requires
        k <= chars@.len(),
        text_fits(chars@),
    ensures
        b == utf8_len(chars@.take(k as int)),
        b <= 4 * k,
{
    let mut b: usize = 0;
    let mut i: usize = 0;
    while i < k
        invariant
            0 <= i <= k <= chars@.len(),
            text_fits(chars@),
            b == utf8_len(chars@.take(i as int)),
            b <= 4 * i,
        decreases k - i,
    {
        assert(chars@.take(i + 1).drop_last() =~= chars@.take(i as int));
        b = b + char_len_utf8(chars[i]);
        i = i + 1;
    }
    b
}

/// Where horizontal clipping stands after some characters.
pub struct ClipState {
    /// Character where the visible text starts, once known
    pub start: Option<int>,
    /// Character where the visible text ends, once known
    pub end: Option<int>,
    /// Columns of padding for a wide character cut by the left edge
    pub lead_pad: int,
    /// Display column where the next character starts
    pub col: int,
    /// Visible columns produced so far, padding included
    pub used: int,
    /// Whether the window has been entered
    pub started: bool,
    /// Whether the window is full
    pub done: bool,
}

/// Clipping before any character.
pub open spec fn clip_init() -> ClipState {
    ClipState { start: None, end: None, lead_pad: 0, col: 0, used: 0, started: false, done: false }
}

/// Clipping state after character `k` (`c`) of a line, for the column
/// window `[skip, skip + take)`: characters left of the window are passed;
/// a wide character cut by the left edge is replaced by padding; the
/// first character that no longer fits ends the visible text.
pub open spec fn clip_step(st: ClipState, k: int, c: char, skip: int, take: int) -> ClipState {
    let w = col_width(c);
    if st.done {
        st
    } else if !st.started && st.col + w <= skip {
        ClipState { start: st.start, end: st.end, lead_pad: st.lead_pad, col: st.col + w, used: st.used, started: false, done: false }
    } else if !st.started && st.col < skip {
        let lp = st.col + w - skip;
        ClipState {
            start: Some(k + 1),
            end: st.end,
            lead_pad: lp,
            col: st.col + w,
            used: if lp <= take {
                lp
            } else {
                take
            },
            started: true,
            done: false,
        }
    } else {
        let start = if st.started {
            st.start
        } else {
            Some(k)
        };
        if st.used + w > take {
            ClipState { start, end: Some(k), lead_pad: st.lead_pad, col: st.col, used: st.used, started: true, done: true }
        } else {
            ClipState { start, end: st.end, lead_pad: st.lead_pad, col: st.col + w, used: st.used + w, started: true, done: false }
        }
    }
}

/// Clipping state after all characters of `s`.
pub open spec fn clip_fold(s: Seq<char>, skip: int, take: int) -> ClipState
    decreases s.len(),
{
    if s.len() == 0 {
        clip_init()
    } else {
        clip_step(clip_fold(s.drop_last(), skip, take), s.len() - 1, s.last(), skip, take)
    }
}

/// `n` spaces.
pub open spec fn spaces(n: int) -> Seq<char> {
    Seq::new(n as nat, |i: int| ' ')
}

/// The visible part of a line for the column window `[skip, skip + take)`:
/// (text, first and last visible character, padding, columns produced).
/// The text is the padding followed by the visible characters.
pub open spec fn hclip_spec(s: Seq<char>, skip: int, take: int) -> (Seq<char>, int, int, int, int) {
    let st = clip_fold(s, skip, take);
    let sc = match st.start {
        Some(k) => k,
        None => s.len() as int,
    };
    let ec = match st.end {
        Some(k) => k,
        None => s.len() as int,
    };
    let lo = if sc <= ec {
        sc
    } else {
        ec
    };
    let lp = if st.lead_pad <= take {
        st.lead_pad
    } else {
        take
    };
    (spaces(lp) + s.subrange(lo, ec), lo, ec, lp, st.used)
}

/// A clipped line.
#[derive(Debug)]
pub struct HClip {
    /// Visible text (a wide character cut by the left edge became spaces)
    pub text: String,
    /// Byte range of the visible characters in the line
    pub span: Range<usize>,
    /// Bytes (spaces) of padding at the head of `text`
    pub lead_pad: usize,
    /// Display columns produced, padding included
    pub cols: usize,
}

/// What the clip of `s` holds, in bytes where `HClip` keeps bytes.
pub open spec fn clip_matches(c: HClip, s: Seq<char>, skip: int, take: int) -> bool {
    let (text, lo, hi, lp, cols) = hclip_spec(s, skip, take);
    &&& c.text@ == text
    &&& c.span.start == utf8_len(s.take(lo))
    &&& c.span.end == utf8_len(s.take(hi))
    &&& c.lead_pad == lp
    &&& c.cols == cols
}

/// Bounds kept by clipping.
pub open spec fn clip_bounds(st: ClipState, n: int) -> bool {
    &&& 0 <= st.col <= 255 * n
    &&& 0 <= st.used <= st.col
    &&& 0 <= st.lead_pad <= st.col
    &&& st.start matches Some(k) ==> 0 <= k <= n
    &&& st.end matches Some(k) ==> 0 <= k <= n
    &&& st.done ==> st.end is Some
    &&& st.end is Some ==> st.done
}

/// Cuts the display columns `[skip, skip + take)` out of a line. A wide
/// character cut by the left edge gives way to spaces filling its visible
/// columns; one that does not fit at the right edge is left out.
pub fn hclip(text: &str, skip: usize, take: usize) -> (c: HClip)
    requires
        text_fits(text@),
    ensures
        clip_matches(c, text@, skip as int, take as int),
{
    let chars = chars_of(text);
    let n = chars.len();
    let mut start: Option<usize> = None;
    let mut end: Option<usize> = None;
    let mut lead_pad: usize = 0;
    let mut col: usize = 0;
    let mut used: usize = 0;
    let mut started = false;
    let mut done = false;
    let mut i: usize = 0;
    while i < n
        invariant
            0 <= i <= n,
            n == chars@.len(),
            chars@ == text@,
            text_fits(text@),
            ({
                let st = clip_fold(chars@.take(i as int), skip as int, take as int);
                &&& st.start == (match start {
                    Some(k) => Some(k as int),
                    None => None,
                })
                &&& st.end == (match end {
                    Some(k) => Some(k as int),
                    None => None,
                })
                &&& st.lead_pad == lead_pad
                &&& st.col == col
                &&& st.used == used
                &&& st.started == started
                &&& st.done == done
                &&& clip_bounds(st, i as int)
            }),
        decreases n - i,
    {
        let c = chars[i];
        let w = width_of(c);
        proof {
            assert(chars@.take(i + 1).drop_last() =~= chars@.take(i as int));
            assert(chars@.take(i + 1).last() == c);
        }
        if done {
        } else if !started && col + w <= skip {
            col = col + w;
        } else if !started && col < skip {
            started = true;
            start = Some(i + 1);
            lead_pad = col + w - skip;
            used = if lead_pad <= take {
                lead_pad
            } else {
                take
            };
            col = col + w;
        } else {
            if !started {
                started = true;
                start = Some(i);
            }
            if used + w > take {
                end = Some(i);
                done = true;
            } else {
                used = used + w;
                col = col + w;
            }
        }
        i = i + 1;
    }
    assert(chars@.take(n as int) =~= chars@);
    let sc = match start {
        Some(k) => k,
        None => n,
    };
    let ec = match end {
        Some(k) => k,
        None => n,
    };
    let lo = if sc <= ec {
        sc
    } else {
        ec
    };
    let lp = if lead_pad <= take {
        lead_pad
    } else {
        take
    };
    let mut out = String::new();
    let mut k: usize = 0;
    while k < lp
        invariant
            0 <= k <= lp,
            out@ == spaces(k as int),
        decreases lp - k,
    {
        crate::text::push_char(&mut out, ' ');
        assert(out@ =~= spaces(k + 1));
        k = k + 1;
    }
    let visible = crate::text::string_of_range(&chars, lo, ec);
    out.append(visible.as_str());
    let span_start = byte_offset(&chars, lo);
    let span_end = byte_offset(&chars, ec);
    HClip { text: out, span: span_start..span_end, lead_pad: lp, cols: used }
}

/// A byte range of the line moved into the clipped text: cut to the
/// visible bytes and shifted by the padding; None when nothing of it is visible.
pub open spec fn shift_spec(r: (int, int), span: (int, int), lead_pad: int) -> Option<(int, int)> {
    let s = if r.0 >= span.0 {
        r.0
    } else {
        span.0
    };
    let e = if r.1 <= span.1 {
        r.1
    } else {
        span.1
    };
    if s >= e {
        None
    } else {
        Some((s - span.0 + lead_pad, e - span.0 + lead_pad))
    }
}

/// Moves a style range of the line into the clipped text.
pub fn shift_range(r: &Range<usize>, clip: &HClip) -> (out: Option<Range<usize>>)
    requires
        clip.span.end + clip.lead_pad <= usize::MAX,
    ensures
        match shift_spec((r.start as int, r.end as int), (clip.span.start as int, clip.span.end as int), clip.lead_pad as int) {
            Some((a, b)) => out matches Some(o) && o.start == a && o.end == b,
            None => out is None,
        },
{
    let s = if r.start >= clip.span.start {
        r.start
    } else {
        clip.span.start
    };
    let e = if r.end <= clip.span.end {
        r.end
    } else {
        clip.span.end
    };
    if s >= e {
        return None;
    }
    Some((s - clip.span.start + clip.lead_pad)..(e - clip.span.start + clip.lead_pad))
}

/// How far a line of `width` columns runs past `content` columns.
pub open spec fn overflow_of(width: int, content: int) -> int {
    if width > content {
        width - content
    } else {
        0
    }
}

/// Overflow of one cell (only lines overflow).
pub open spec fn cell_overflow(c: Cell, content: int) -> int {
    match c {
        Cell::Line { text, .. } => overflow_of(text_width(text@), content),
        _ => 0,
    }
}

/// Largest overflow among the first `n` rows that are not fold rows.
pub open spec fn rows_overflow(rows: Seq<Row>, b: Seq<CellBudget>, n: int) -> int
    decreases n,
{
    if n <= 0 {
        0
    } else {
        let prev = rows_overflow(rows, b, n - 1);
        let r = rows[n - 1];
        if r.fold is Some {
            prev
        } else {
            let m1 = cell_overflow(r.ours, b[0].content as int);
            let m2 = cell_overflow(r.result, b[1].content as int);
            let m3 = cell_overflow(r.theirs, b[2].content as int);
            let a = if prev >= m1 {
                prev
            } else {
                m1
            };
            let c = if a >= m2 {
                a
            } else {
                m2
            };
            if c >= m3 {
                c
            } else {
                m3
            }
        }
    }
}

/// Whether every line of the rows fits the width arithmetic.
pub open spec fn rows_fit(rows: Seq<Row>) -> bool {
    forall|i: int|
        0 <= i < rows.len() ==> {
            &&& (#[trigger] rows[i]).ours matches Cell::Line { text, .. } ==> text_fits(text@)
            &&& rows[i].result matches Cell::Line { text, .. } ==> text_fits(text@)
            &&& rows[i].theirs matches Cell::Line { text, .. } ==> text_fits(text@)
        }
}

/// Overflow of one cell.
fn cell_over(c: &Cell, content: usize) -> (o: usize)
    requires
        c matches Cell::Line { text, .. } ==> text_fits(text@),
    ensures
        o == cell_overflow(*c, content as int),
{
    match c {
        Cell::Line { text, .. } => {
            let w = display_width(text.as_str());
            if w > content {
                w - content
            } else {
                0
            }
        },
        _ => 0,
    }
}

/// The furthest the visible rows run past their panes, in columns: the
/// limit of horizontal scrolling.
pub fn max_h_overflow(visible: &Vec<Row>, budgets: &[CellBudget; 3]) -> (m: usize)
    requires
        rows_fit(visible@),
    ensures
        m == rows_overflow(visible@, budgets@, visible@.len() as int),
{
    let mut max: usize = 0;
    let mut i: usize = 0;
    while i < visible.len()
        invariant
            0 <= i <= visible@.len(),
            rows_fit(visible@),
            max == rows_overflow(visible@, budgets@, i as int),
        decreases visible@.len() - i,
    {
        let row = &visible[i];
        if row.fold.is_none() {
            let m1 = cell_over(&row.ours, budgets[0].content);
            let m2 = cell_over(&row.result, budgets[1].content);
            let m3 = cell_over(&row.theirs, budgets[2].content);
            if m1 > max {
                max = m1;
            }
            if m2 > max {
                max = m2;
            }
            if m3 > max {
                max = m3;
            }
        }
        i = i + 1;
    }
    max
}

/// `a + d`, kept between 0 and `usize::MAX` (`usize::saturating_add_signed`).
pub open spec fn sat_add_signed(a: int, d: int) -> int {
    if a + d < 0 {
        0
    } else if a + d > usize::MAX {
        usize::MAX as int
    } else {
        a + d
    }
}

/// The smaller of two numbers.
pub open spec fn min_int(a: int, b: int) -> int {
    if a <= b {
        a
    } else {
        b
    }
}

/// The vertical scroll step of a request: half the view, at least one row.
pub open spec fn scroll_step(height: int) -> int {
    if height / 2 >= 1 {
        height / 2
    } else {
        1
    }
}

/// How the view settles before drawing, for `rows` rows in a view of
/// `height`: a pending scroll request moves by half views and stops the
/// view following the cursor; the offset never passes the last full view;
/// a following view that lost the cursor chunk's first row (`target`)
/// brings it back a third of the way down. The new offset and follow flag.
pub open spec fn settle_spec(scroll: int, follow: bool, request: int, rows: int, height: int, target: int) -> (int, bool) {
    let max_scroll = if rows >= height {
        rows - height
    } else {
        0
    };
    let (s1, f1) = if request != 0 {
        (min_int(sat_add_signed(scroll, request * scroll_step(height)), max_scroll), false)
    } else {
        (scroll, follow)
    };
    let s2 = min_int(s1, max_scroll);
    if f1 && height > 0 && (target < s2 || target >= s2 + height) {
        (min_int(if target >= height / 3 {
            target - height / 3
        } else {
            0
        }, max_scroll), f1)
    } else {
        (s2, f1)
    }
}

/// Settles the vertical scroll offset of the panes before drawing.
pub fn settle_scroll(scroll: usize, follow: bool, request: isize, rows: usize, height: usize, target: usize) -> (r: (
    usize,
    bool,
))
    requires
        isize::MIN <= request * scroll_step(height as int) <= isize::MAX,
    ensures
        (r.0 as int, r.1) == settle_spec(scroll as int, follow, request as int, rows as int, height as int, target as int),
{
    let max_scroll = if rows >= height {
        rows - height
    } else {
        0
    };
    let mut s = scroll;
    let mut f = follow;
    if request != 0 {
        let step: isize = if height / 2 >= 1 {
            if height / 2 > isize::MAX as usize {
                isize::MAX
            } else {
                (height / 2) as isize
            }
        } else {
            1
        };
        proof {
            if height / 2 > isize::MAX {
                assert(request * scroll_step(height as int) == request * (height / 2));
                if request > 0 {
                    assert(request * (height / 2) >= height / 2) by (nonlinear_arith)
                        requires
                            request >= 1,
                            height / 2 >= 0,
                    ;
                } else {
                    assert(request * (height / 2) <= -(height / 2)) by (nonlinear_arith)
                        requires
                            request <= -1,
                            height / 2 >= 0,
                    ;
                }
            }
        }
        let d = request * step;
        let moved: usize = if d >= 0 {
            let u = d as usize;
            if scroll > usize::MAX - u {
                usize::MAX
            } else {
                scroll + u
            }
        } else {
            let u = (0 - (d as i128)) as usize;
            if scroll >= u {
                scroll - u
            } else {
                0
            }
        };
        s = if moved <= max_scroll {
            moved
        } else {
            max_scroll
        };
        f = false;
    }
    if s > max_scroll {
        s = max_scroll;
    }
    if f && height > 0 && (target < s || target - s >= height) {
        let up = if target >= height / 3 {
            target - height / 3
        } else {
            0
        };
        s = if up <= max_scroll {
            up
        } else {
            max_scroll
        };
    }
    (s, f)
}

/// The chunk under the cursor stays in view: after settling a view that
/// follows the cursor (with no scroll request), the first row of the
/// cursor's chunk lies inside it, whatever the offset was before.
pub proof fn law_cursor_stays_in_view(scroll: int, follow: bool, rows: int, height: int, target: int)
    requires
        follow,
        0 <= scroll,
        0 < height,
        0 <= target < rows,
    ensures
        settle_spec(scroll, follow, 0, rows, height, target).0 <= target < settle_spec(
            scroll,
            follow,
            0,
            rows,
            height,
            target,
        ).0 + height,
{
}

/// The horizontal scroll offset after a request of `request` steps, never
/// past the widest overflow of the visible lines.
pub fn settle_hscroll(hscroll: usize, request: isize, max_h: usize) -> (h: usize)
    requires
        isize::MIN <= request * HSCROLL_STEP <= isize::MAX,
    ensures
        h == min_int(sat_add_signed(hscroll as int, request * HSCROLL_STEP), max_h as int),
{
    let d = request * 8;
    let moved: usize = if d >= 0 {
        let u = d as usize;
        if hscroll > usize::MAX - u {
            usize::MAX
        } else {
            hscroll + u
        }
    } else {
        let u = (0 - (d as i128)) as usize;
        if hscroll >= u {
            hscroll - u
        } else {
            0
        }
    };
    if moved <= max_h {
        moved
    } else {
        max_h
    }
}

/// What the panes show in a frame: the visible rows `[first, last)`, each
/// pane's room (all sharing one horizontal offset), and the scroll limits.
#[derive(Debug, Clone, Copy)]
pub struct PaneView {
    /// First visible row
    pub first: usize,
    /// One past the last visible row
    pub last: usize,
    /// Room of the local, result and remote panes
    pub budgets: [CellBudget; 3],
    /// Largest vertical offset
    pub max_scroll: usize,
    /// Largest horizontal offset: the widest overflow of the visible rows
    pub max_h: usize,
}

/// `b` is `a` with only the view offset and the follow flag changed.
pub open spec fn view_moved(a: FileMerge, b: FileMerge) -> bool {
    &&& b.path == a.path
    &&& b.chunks == a.chunks
    &&& b.states == a.states
    &&& b.cursor == a.cursor
    &&& b.ours_label == a.ours_label
    &&& b.theirs_label == a.theirs_label
    &&& b.ends_with_newline == a.ends_with_newline
}

/// The widest overflow of the rows `[first, last)`.
fn overflow_between(rows: &[Row], first: usize, last: usize, budgets: &[CellBudget; 3]) -> (m: usize)
    requires
        first <= last <= rows@.len(),
        rows_fit(rows@),
    ensures
        m == rows_overflow(rows@.subrange(first as int, last as int), budgets@, last - first),
{
    let ghost sub = rows@.subrange(first as int, last as int);
    let mut max: usize = 0;
    let mut i: usize = first;
    while i < last
        invariant
            first <= i <= last <= rows@.len(),
            sub == rows@.subrange(first as int, last as int),
            rows_fit(rows@),
            max == rows_overflow(sub, budgets@, i - first),
        decreases last - i,
    {
        let row = &rows[i];
        assert(sub[i - first] == rows@[i as int]);
        if row.fold.is_none() {
            let m1 = cell_over(&row.ours, budgets[0].content);
            let m2 = cell_over(&row.result, budgets[1].content);
            let m3 = cell_over(&row.theirs, budgets[2].content);
            if m1 > max {
                max = m1;
            }
            if m2 > max {
                max = m2;
            }
            if m3 > max {
                max = m3;
            }
        }
        i = i + 1;
    }
    max
}

/// The room of a pane `width` columns wide, borders taken off.
pub open spec fn pane_budget(width: u16, max_no: usize) -> (bool, int, int) {
    budget_spec(
        if width >= 2 {
            width - 2
        } else {
            0
        },
        max_no as nat,
    )
}

/// Settles what the panes show before a frame is drawn: the vertical
/// offset (see `settle_spec`; the cursor chunk's first row is the target),
/// the visible rows, each pane's room for its width, and the horizontal
/// offset, moved by `hrequest` steps and kept within the widest overflow
/// of the visible rows.
pub fn settle_view(
    merge: &mut FileMerge,
    rows: &[Row],
    starts: &[usize],
    widths: [u16; 3],
    max_no: usize,
    height: usize,
    hscroll: usize,
    vrequest: isize,
    hrequest: isize,
) -> (v: PaneView)
    requires
        rows_fit(rows@),
        isize::MIN <= vrequest * scroll_step(height as int) <= isize::MAX,
        isize::MIN <= hrequest * HSCROLL_STEP <= isize::MAX,
    ensures
        view_moved(*old(merge), *final(merge)),
        (final(merge).scroll as int, final(merge).follow) == settle_spec(
            old(merge).scroll as int,
            old(merge).follow,
            vrequest as int,
            rows@.len() as int,
            height as int,
            if old(merge).cursor < starts@.len() {
                starts@[old(merge).cursor as int] as int
            } else {
                0
            },
        ),
        v.max_scroll == if rows@.len() >= height {
            rows@.len() - height
        } else {
            0
        },
        v.first == final(merge).scroll,
        v.last == min_int(rows@.len() as int, v.first + height),
        v.first <= v.last <= rows@.len(),
        forall|k: int|
            0 <= k < 3 ==> (#[trigger] v.budgets@[k].gutter, v.budgets@[k].no_width as int, v.budgets@[k].content as int)
                == pane_budget(widths@[k], max_no),
        v.max_h == rows_overflow(rows@.subrange(v.first as int, v.last as int), v.budgets@, v.last - v.first),
        forall|k: int|
            0 <= k < 3 ==> #[trigger] v.budgets@[k].hscroll == min_int(
                sat_add_signed(hscroll as int, hrequest * HSCROLL_STEP),
                v.max_h as int,
            ),
{
    let n = rows.len();
    let max_scroll = if n >= height {
        n - height
    } else {
        0
    };
    let target = if merge.cursor < starts.len() {
        starts[merge.cursor]
    } else {
        0
    };
    let (scroll, follow) = settle_scroll(merge.scroll, merge.follow, vrequest, n, height, target);
    merge.scroll = scroll;
    merge.follow = follow;
    let first = scroll;
    let last = if n - first >= height {
        first + height
    } else {
        n
    };
    let inner = |w: u16| -> (i: u16)
        ensures
            i == if w >= 2 {
                w - 2
            } else {
                0
            },
        {
            if w >= 2 {
                w - 2
            } else {
                0
            }
        };
    let b0 = cell_budget(inner(widths[0]), max_no);
    let b1 = cell_budget(inner(widths[1]), max_no);
    let b2 = cell_budget(inner(widths[2]), max_no);
    let unscrolled = [b0, b1, b2];
    let max_h = overflow_between(rows, first, last, &unscrolled);
    let h = settle_hscroll(hscroll, hrequest, max_h);
    let budgets = [
        CellBudget { gutter: b0.gutter, no_width: b0.no_width, content: b0.content, hscroll: h },
        CellBudget { gutter: b1.gutter, no_width: b1.no_width, content: b1.content, hscroll: h },
        CellBudget { gutter: b2.gutter, no_width: b2.no_width, content: b2.content, hscroll: h },
    ];
    proof {
        lemma_overflow_content(rows@.subrange(first as int, last as int), unscrolled@, budgets@, last - first);
    }
    PaneView { first, last, budgets, max_scroll, max_h }
}

/// The overflow of rows depends on the panes' text columns alone.
proof fn lemma_overflow_content(rows: Seq<Row>, a: Seq<CellBudget>, b: Seq<CellBudget>, n: int)
    requires
        a.len() == 3,
        b.len() == 3,
        forall|k: int| 0 <= k < 3 ==> (#[trigger] a[k]).content == b[k].content,
    ensures
        rows_overflow(rows, a, n) == rows_overflow(rows, b, n),
    decreases n,
{
    if n > 0 {
        lemma_overflow_content(rows, a, b, n - 1);
        assert(a[0].content == b[0].content && a[1].content == b[1].content && a[2].content == b[2].content);
    }
}

} // verus!
