//! The menu logo: ANSI character art read into coloured cells.
//!
//! Only the SGR subset the logo uses is understood: `0` resets, `38;2;r;g;b`
//! sets the foreground and `48;2;r;g;b` the background. Leading and
//! trailing lines without a visible cell are dropped.

use vstd::prelude::*;

use crate::text::{chars_of, chars_view, is_ws, split_chars, split_on, str_lines, str_lines_of};
use crate::ui::theme::{TermColor, all_digits, digit_value, digits_value, term_color, term_color_spec};

verus! {

/// `u16::from_str`: an optional `+`, then at least one digit, naming at most 65535.
pub open spec fn parse_u16_spec(s: Seq<char>) -> Option<u16> {
    let d = if s.len() > 0 && s[0] == '+' {
        s.drop_first()
    } else {
        s
    };
    if d.len() > 0 && all_digits(d) && digits_value(d) <= 65535 {
        Some(digits_value(d) as u16)
    } else {
        None
    }
}

/// Digits are worth at least nothing.
pub(crate) proof fn lemma_digits_nonneg(s: Seq<char>)
    requires
        all_digits(s),
    ensures
        digits_value(s) >= 0,
    decreases s.len(),
{
    if s.len() > 0 {
        lemma_digits_nonneg(s.drop_last());
    }
}

/// A longer run of digits is worth at least as much as its prefix.
pub(crate) proof fn lemma_digits_grow(s: Seq<char>, k: int)
    requires
        0 <= k <= s.len(),
        all_digits(s),
    ensures
        digits_value(s) >= digits_value(s.take(k)),
    decreases s.len() - k,
{
    if k < s.len() {
        lemma_digits_grow(s.drop_last(), k);
        assert(s.drop_last().take(k) =~= s.take(k));
        lemma_digits_nonneg(s.drop_last());
    } else {
        assert(s.take(k) =~= s);
    }
}

/// Parses an unsigned 16-bit number written in decimal.
pub fn parse_u16(s: &Vec<char>) -> (r: Option<u16>)
    ensures
        r == parse_u16_spec(s@),
{
    let start: usize = if s.len() > 0 && s[0] == '+' {
        1
    } else {
        0
    };
    let ghost d = if s@.len() > 0 && s@[0] == '+' {
        s@.drop_first()
    } else {
        s@
    };
    assert(d =~= s@.subrange(start as int, s@.len() as int));
    if start >= s.len() {
        return None;
    }
    let mut v: u32 = 0;
    let mut i = start;
    while i < s.len()
        invariant
            start <= i <= s@.len(),
            start < s@.len(),
            d == s@.subrange(start as int, s@.len() as int),
            d == (if s@.len() > 0 && s@[0] == '+' {
                s@.drop_first()
            } else {
                s@
            }),
            all_digits(s@.subrange(start as int, i as int)),
            v == digits_value(s@.subrange(start as int, i as int)),
            v <= 65535,
        decreases s@.len() - i,
    {
        let c = s[i];
        let ghost pre = s@.subrange(start as int, i as int);
        let ghost now = s@.subrange(start as int, i + 1);
        assert(now.drop_last() =~= pre);
        if c < '0' || c > '9' {
            proof {
                assert(d[(i - start) as int] == s@[i as int]);
            }
            return None;
        }
        let dv = (c as u32) - ('0' as u32);
        if v * 10 + dv > 65535 {
            proof {
                assert(all_digits(now));
                if all_digits(d) {
                    lemma_digits_grow(d, (i + 1 - start) as int);
                    assert(d.take((i + 1 - start) as int) =~= now);
                }
            }
            return None;
        }
        v = v * 10 + dv;
        i = i + 1;
    }
    Some(v as u16)
}

/// The numbers of an SGR parameter list: the `;`-separated fields that
/// read as `u16`, in order (the others are skipped).
pub open spec fn sgr_numbers(fields: Seq<Seq<char>>) -> Seq<u16>
    decreases fields.len(),
{
    if fields.len() == 0 {
        Seq::empty()
    } else {
        let prev = sgr_numbers(fields.drop_last());
        match parse_u16_spec(fields.last()) {
            Some(n) => prev.push(n),
            None => prev,
        }
    }
}

/// The colours after the SGR numbers from `i` on: `0` resets both;
/// `38;2;r;g;b` sets the foreground and `48;2;r;g;b` the background (each
/// component cut to its low byte); anything else is skipped.
pub open spec fn sgr_apply(
    nums: Seq<u16>,
    i: int,
    fg: Option<TermColor>,
    bg: Option<TermColor>,
    truecolor: bool,
) -> (Option<TermColor>, Option<TermColor>)
    decreases nums.len() - i,
{
    if i < 0 || i >= nums.len() {
        (fg, bg)
    } else if nums[i] == 0 {
        sgr_apply(nums, i + 1, None, None, truecolor)
    } else if (nums[i] == 38 || nums[i] == 48) && nums.len() >= i + 5 && nums[i + 1] == 2 {
        let c = term_color_spec(
            (nums[i + 2] % 256) as u8,
            (nums[i + 3] % 256) as u8,
            (nums[i + 4] % 256) as u8,
            truecolor,
        );
        if nums[i] == 38 {
            sgr_apply(nums, i + 5, Some(c), bg, truecolor)
        } else {
            sgr_apply(nums, i + 5, fg, Some(c), truecolor)
        }
    } else {
        sgr_apply(nums, i + 1, fg, bg, truecolor)
    }
}

/// The low byte of a number.
fn low_byte(n: u16) -> (b: u8)
    ensures
        b == (n % 256) as u8,
{
    (n % 256) as u8
}

/// The numbers of an SGR parameter list.
fn sgr_numbers_of(params: &Vec<char>) -> (nums: Vec<u16>)
    ensures
        nums@ == sgr_numbers(split_on(params@, ';')),
{
    let fields = split_chars(params, ';');
    let ghost fv = chars_view(fields@);
    let mut nums: Vec<u16> = Vec::new();
    let mut i: usize = 0;
    while i < fields.len()
        invariant
            0 <= i <= fields@.len(),
            fv == chars_view(fields@),
            fv == split_on(params@, ';'),
            nums@ == sgr_numbers(fv.take(i as int)),
        decreases fields@.len() - i,
    {
        proof {
            assert(fv.take(i + 1).drop_last() =~= fv.take(i as int));
            assert(fv.take(i + 1).last() == fields@[i as int]@);
        }
        match parse_u16(&fields[i]) {
            Some(n) => nums.push(n),
            None => {},
        }
        i = i + 1;
    }
    assert(fv.take(fields@.len() as int) =~= fv);
    nums
}

/// Applies an SGR parameter list (the text between `ESC [` and `m`) to the
/// current colours.
pub fn apply_sgr(params: &Vec<char>, fg: &mut Option<TermColor>, bg: &mut Option<TermColor>, truecolor: bool)
    ensures
        (*final(fg), *final(bg)) == sgr_apply(sgr_numbers(split_on(params@, ';')), 0, *old(fg), *old(bg), truecolor),
{
    let nums = sgr_numbers_of(params);
    let mut i: usize = 0;
    while i < nums.len()
        invariant
            0 <= i <= nums@.len(),
            sgr_apply(nums@, 0, *old(fg), *old(bg), truecolor) == sgr_apply(nums@, i as int, *fg, *bg, truecolor),
        decreases nums@.len() - i,
    {
        let n = nums[i];
        if n == 0 {
            *fg = None;
            *bg = None;
            i = i + 1;
        } else if (n == 38 || n == 48) && nums.len() - i >= 5 && nums[i + 1] == 2 {
            let c = term_color(low_byte(nums[i + 2]), low_byte(nums[i + 3]), low_byte(nums[i + 4]), truecolor);
            if n == 38 {
                *fg = Some(c);
            } else {
                *bg = Some(c);
            }
            i = i + 5;
        } else {
            i = i + 1;
        }
    }
    proof {
        assert(sgr_apply(nums@, i as int, *fg, *bg, truecolor) == (*fg, *bg));
    }
}

/// One cell of character art: a character and its colours.
#[derive(Debug, Clone, Copy, PartialEq, Eq, Structural)]
pub struct ArtCell {
    pub ch: char,
    pub fg: Option<TermColor>,
    pub bg: Option<TermColor>,
}

/// Reading a line of art so far: the cells, the colours, whether a cell is
/// visible, and the parameters of an escape sequence being read.
pub struct ArtLine {
    pub cells: Seq<ArtCell>,
    pub fg: Option<TermColor>,
    pub bg: Option<TermColor>,
    pub visible: bool,
    pub esc: Option<Seq<char>>,
}

/// A line of art read up to its `n`-th character: ESC starts an escape
/// sequence whose parameters run to `m` (a `[` is skipped), which then sets
/// the colours; any other character is a cell in the current colours, and a
/// coloured or non-blank cell makes the line visible.
pub open spec fn art_line(line: Seq<char>, n: int, truecolor: bool) -> ArtLine
    decreases n,
{
    if n <= 0 {
        ArtLine { cells: Seq::empty(), fg: None, bg: None, visible: false, esc: None }
    } else {
        let st = art_line(line, n - 1, truecolor);
        let c = line[n - 1];
        match st.esc {
            Some(p) => if c == 'm' {
                let (fg, bg) = sgr_apply(sgr_numbers(split_on(p, ';')), 0, st.fg, st.bg, truecolor);
                ArtLine { cells: st.cells, fg, bg, visible: st.visible, esc: None }
            } else if c == '[' {
                st
            } else {
                ArtLine { cells: st.cells, fg: st.fg, bg: st.bg, visible: st.visible, esc: Some(p.push(c)) }
            },
            None => if c == '\x1b' {
                ArtLine { cells: st.cells, fg: st.fg, bg: st.bg, visible: st.visible, esc: Some(Seq::empty()) }
            } else {
                ArtLine {
                    cells: st.cells.push(ArtCell { ch: c, fg: st.fg, bg: st.bg }),
                    fg: st.fg,
                    bg: st.bg,
                    visible: st.visible || st.fg is Some || st.bg is Some || !is_ws(c),
                    esc: None,
                }
            },
        }
    }
}

/// A whole line of art: its cells and whether it is visible.
pub open spec fn art_line_all(line: Seq<char>, truecolor: bool) -> (Seq<ArtCell>, bool) {
    let st = art_line(line, line.len() as int, truecolor);
    (st.cells, st.visible)
}

/// Number of leading lines that are not visible.
pub open spec fn lead_blank(v: Seq<(Seq<ArtCell>, bool)>, i: int) -> int
    decreases v.len() - i,
{
    if i < 0 || i >= v.len() || v[i].1 {
        0
    } else {
        1 + lead_blank(v, i + 1)
    }
}

/// Number of trailing lines that are not visible.
pub open spec fn trail_blank(v: Seq<(Seq<ArtCell>, bool)>, n: int) -> int
    decreases n,
{
    if n <= 0 || n > v.len() || v[n - 1].1 {
        0
    } else {
        1 + trail_blank(v, n - 1)
    }
}

/// The cells of character art: every line read, then the leading and
/// trailing lines without a visible cell dropped.
pub open spec fn art_spec(src: Seq<char>, truecolor: bool) -> Seq<Seq<ArtCell>> {
    let lines = str_lines(src).map_values(|l: Seq<char>| art_line_all(l, truecolor));
    let end = lines.len() - trail_blank(lines, lines.len() as int);
    let start = lead_blank(lines.take(end), 0);
    lines.subrange(start, end).map_values(|p: (Seq<ArtCell>, bool)| p.0)
}

/// Reads one line of art.
fn read_art_line(line: &Vec<char>, truecolor: bool) -> (r: (Vec<ArtCell>, bool))
    ensures
        (r.0@, r.1) == art_line_all(line@, truecolor),
{
    let mut cells: Vec<ArtCell> = Vec::new();
    let mut fg: Option<TermColor> = None;
    let mut bg: Option<TermColor> = None;
    let mut visible = false;
    let mut in_esc = false;
    let mut params: Vec<char> = Vec::new();
    let mut i: usize = 0;
    while i < line.len()
        invariant
            0 <= i <= line@.len(),
            art_line(line@, i as int, truecolor) == (ArtLine {
                cells: cells@,
                fg,
                bg,
                visible,
                esc: if in_esc {
                    Some(params@)
                } else {
                    None
                },
            }),
        decreases line@.len() - i,
    {
        let c = line[i];
        if in_esc {
            if c == 'm' {
                apply_sgr(&params, &mut fg, &mut bg, truecolor);
                in_esc = false;
                params = Vec::new();
            } else if c == '[' {
            } else {
                params.push(c);
            }
        } else if c == '\x1b' {
            in_esc = true;
            params = Vec::new();
            assert(params@ =~= Seq::<char>::empty());
        } else {
            let coloured = fg.is_some() || bg.is_some();
            let blank = crate::text::is_whitespace(c);
            cells.push(ArtCell { ch: c, fg, bg });
            visible = visible || coloured || !blank;
        }
        i = i + 1;
    }
    (cells, visible)
}

/// Reads ANSI character art into lines of coloured cells.
pub fn parse_ansi_art(src: &str, truecolor: bool) -> (art: Vec<Vec<ArtCell>>)
    ensures
        art@.map_values(|l: Vec<ArtCell>| l@) == art_spec(src@, truecolor),
{
    let raw = str_lines_of(src);
    let ghost lines = str_lines(src@).map_values(|l: Seq<char>| art_line_all(l, truecolor));
    let mut read: Vec<(Vec<ArtCell>, bool)> = Vec::new();
    let mut i: usize = 0;
    while i < raw.len()
        invariant
            0 <= i <= raw@.len(),
            chars_view(raw@) == str_lines(src@),
            lines == str_lines(src@).map_values(|l: Seq<char>| art_line_all(l, truecolor)),
            read@.len() == i,
            forall|j: int| 0 <= j < i ==> ((#[trigger] read@[j]).0@, read@[j].1) == lines[j],
        decreases raw@.len() - i,
    {
        let r = read_art_line(&raw[i], truecolor);
        proof {
            assert(chars_view(raw@)[i as int] == raw@[i as int]@);
        }
        read.push(r);
        i = i + 1;
    }
    let n = read.len();
    let mut end = n;
    while end > 0 && !read[end - 1].1
        invariant
            0 <= end <= n,
            n == read@.len(),
            n == lines.len(),
            forall|j: int| 0 <= j < n ==> ((#[trigger] read@[j]).0@, read@[j].1) == lines[j],
            trail_blank(lines, n as int) == (n - end) + trail_blank(lines, end as int),
        decreases end,
    {
        end = end - 1;
    }
    assert(trail_blank(lines, end as int) == 0);
    let ghost head = lines.take(end as int);
    let mut start: usize = 0;
    while start < end && !read[start].1
        invariant
            0 <= start <= end <= n,
            n == read@.len(),
            n == lines.len(),
            head == lines.take(end as int),
            forall|j: int| 0 <= j < n ==> ((#[trigger] read@[j]).0@, read@[j].1) == lines[j],
            lead_blank(head, 0) == start + lead_blank(head, start as int),
        decreases end - start,
    {
        assert(head[start as int] == lines[start as int]);
        start = start + 1;
    }
    proof {
        if start < end {
            assert(head[start as int] == lines[start as int]);
        }
        assert(lead_blank(head, start as int) == 0);
    }
    let mut art: Vec<Vec<ArtCell>> = Vec::new();
    let mut k = start;
    while k < end
        invariant
            start <= k <= end <= n,
            n == read@.len(),
            n == lines.len(),
            forall|j: int| 0 <= j < n ==> ((#[trigger] read@[j]).0@, read@[j].1) == lines[j],
            art@.map_values(|l: Vec<ArtCell>| l@) == lines.subrange(start as int, k as int).map_values(
                |p: (Seq<ArtCell>, bool)| p.0,
            ),
        decreases end - k,
    {
        let ghost before = art@;
        let mut row: Vec<ArtCell> = Vec::new();
        let cells = &read[k].0;
        let mut m: usize = 0;
        while m < cells.len()
            invariant
                0 <= m <= cells@.len(),
                row@ == cells@.take(m as int),
            decreases cells@.len() - m,
        {
            row.push(cells[m]);
            assert(cells@.take(m + 1) =~= cells@.take(m as int).push(cells@[m as int]));
            m = m + 1;
        }
        assert(cells@.take(cells@.len() as int) =~= cells@);
        art.push(row);
        proof {
            assert(read@[k as int].0@ == lines[k as int].0);
            assert(art@.map_values(|l: Vec<ArtCell>| l@) =~= before.map_values(|l: Vec<ArtCell>| l@).push(row@));
            assert(art@.map_values(|l: Vec<ArtCell>| l@) =~= lines.subrange(start as int, k + 1).map_values(
                |p: (Seq<ArtCell>, bool)| p.0,
            ));
        }
        k = k + 1;
    }
    art
}

} // verus!
