//! Menu entries, text widths and cursor movement of the pickers.

use vstd::prelude::*;

use crate::text::{chars_of, str_lines, str_lines_of, trim_bounds, trim_ws};
use crate::ui::art::lemma_digits_grow;
use crate::ui::theme::{all_digits, digits_value};
use crate::ui::art::ArtCell;
use crate::ui::theme::TermColor;

verus! {

/// A menu entry: a label (command, branch or short hash) and a description.
#[derive(Debug, Clone)]
pub struct MenuItem {
    /// Left column; what a pick returns
    pub label: String,
    /// Right column; only the label shows when empty
    pub desc: String,
    /// Longer description for the main menu's help box; the description when empty
    pub hint: String,
}

impl MenuItem {
    /// An entry without a long description.
    pub fn new(label: String, desc: String) -> (m: MenuItem)
        ensures
            m.label@ == label@,
            m.desc@ == desc@,
            m.hint@ == Seq::<char>::empty(),
    {
        MenuItem { label, desc, hint: String::new() }
    }

    /// The entry with a long description.
    pub fn with_hint(self, hint: String) -> (m: MenuItem)
        ensures
            m.label == self.label,
            m.desc == self.desc,
            m.hint@ == hint@,
    {
        MenuItem { label: self.label, desc: self.desc, hint }
    }
}

/// Columns a character is taken to fill in a menu: one for ASCII and for
/// arrows, box drawing, blocks and geometric shapes (U+2190 to U+25FF),
/// two for anything else (CJK).
pub open spec fn menu_char_width(c: char) -> int {
    if (c as u32) < 0x80 || ('\u{2190}' <= c && c <= '\u{25FF}') {
        1
    } else {
        2
    }
}

/// Columns a text is taken to fill in a menu.
pub open spec fn menu_width(s: Seq<char>) -> int
    decreases s.len(),
{
    if s.len() == 0 {
        0
    } else {
        menu_width(s.drop_last()) + menu_char_width(s.last())
    }
}

/// A text never takes more than two columns per character.
proof fn lemma_menu_width_bound(s: Seq<char>)
    ensures
        0 <= menu_width(s) <= 2 * s.len(),
    decreases s.len(),
{
    if s.len() > 0 {
        lemma_menu_width_bound(s.drop_last());
    }
}

/// Estimated terminal width of a text (CJK counts two columns).
pub fn display_width(s: &str) -> (w: usize)
    requires
        2 * s@.len() <= usize::MAX,
    ensures
        w == menu_width(s@),
{
    let chars = chars_of(s);
    let mut w: usize = 0;
    let mut i: usize = 0;
    while i < chars.len()
        invariant
            0 <= i <= chars@.len(),
            chars@ == s@,
            2 * s@.len() <= usize::MAX,
            w == menu_width(chars@.take(i as int)),
        decreases chars@.len() - i,
    {
        let c = chars[i];
        proof {
            assert(chars@.take(i + 1).drop_last() =~= chars@.take(i as int));
            lemma_menu_width_bound(chars@.take(i as int));
        }
        let cw: usize = if (c as u32) < 0x80 || ('\u{2190}' <= c && c <= '\u{25FF}') {
            1
        } else {
            2
        };
        w = w + cw;
        i = i + 1;
    }
    assert(chars@.take(chars@.len() as int) =~= chars@);
    w
}

/// Moves a cursor by `delta` among `len` entries, wrapping around.
pub fn wrap_move(cursor: usize, len: usize, delta: isize) -> (c: usize)
    requires
        0 < len <= isize::MAX,
        cursor <= isize::MAX,
        isize::MIN <= cursor + delta <= isize::MAX,
    ensures
        c == (cursor + delta) % (len as int),
{
    let l = len as u128;
    let cu = cursor as u128;
    if delta >= 0 {
        let s = cu + delta as u128;
        let r = s % l;
        proof {
            vstd::arithmetic::div_mod::lemma_mod_bound(s as int, l as int);
        }
        r as usize
    } else {
        let d = (0 - (delta as i128)) as u128;
        let cm = cu % l;
        let dm = d % l;
        let r = (cm + l - dm) % l;
        proof {
            vstd::arithmetic::div_mod::lemma_mod_bound(cu as int, l as int);
            vstd::arithmetic::div_mod::lemma_mod_bound(d as int, l as int);
            vstd::arithmetic::div_mod::lemma_mod_bound((cm + l - dm) as int, l as int);
            vstd::arithmetic::div_mod::lemma_sub_mod_noop(cu as int, d as int, l as int);
            vstd::arithmetic::div_mod::lemma_mod_add_multiples_vanish((cm - dm) as int, l as int);
            assert(cursor + delta == cu - d);
        }
        r as usize
    }
}

/// Cells of a status gauge.
pub const GAUGE_CELLS: usize = 10;

/// The gap of a line that pushes its right part to the panel's edge: what
/// is left of the inner width, at least one column.
pub fn spread_gap(used: usize, inner: usize) -> (g: usize)
    ensures
        g == if inner > used + 1 {
            (inner - used) as int
        } else {
            1
        },
{
    if inner > used && inner - used > 1 {
        inner - used
    } else {
        1
    }
}

/// `c` repeated `n` times.
pub fn repeat_char(c: char, n: usize) -> (s: String)
    ensures
        s@ == Seq::new(n as nat, |i: int| c),
{
    let mut s = String::new();
    let mut i: usize = 0;
    while i < n
        invariant
            0 <= i <= n,
            s@ == Seq::new(i as nat, |j: int| c),
        decreases n - i,
    {
        crate::text::push_char(&mut s, c);
        assert(s@ =~= Seq::new((i + 1) as nat, |j: int| c));
        i = i + 1;
    }
    s
}

/// A gauge of `GAUGE_CELLS` cells: `filled` full blocks, then light shades.
pub fn gauge_cells(filled: usize) -> (r: (String, String))
    requires
        filled <= GAUGE_CELLS,
    ensures
        r.0@ == Seq::new(filled as nat, |i: int| '\u{2588}'),
        r.1@ == Seq::new((GAUGE_CELLS - filled) as nat, |i: int| '\u{2591}'),
{
    (repeat_char('\u{2588}', filled), repeat_char('\u{2591}', GAUGE_CELLS - filled))
}

/// The columns of line drawn on each side of a divider's text: equal
/// halves of the width left beside the text and one space on each side of
/// it, the right one taking the odd column.
pub fn divider_sides(text_width: usize, width: u16) -> (r: (usize, usize))
    requires
        text_width + 2 <= usize::MAX,
    ensures
        r.0 == (if width >= text_width + 2 {
            (width - text_width - 2) as int
        } else {
            0
        }) / 2,
        r.1 == if width >= text_width + 2 + r.0 {
            (width - (text_width + 2 + r.0)) as int
        } else {
            0
        },
{
    let tw = text_width + 2;
    let w = width as usize;
    let side = if w >= tw {
        (w - tw) / 2
    } else {
        0
    };
    let right = if w >= tw + side {
        w - (tw + side)
    } else {
        0
    };
    (side, right)
}

/// The title of a window frame: ` ◆ title ` with the title trimmed, or
/// none for a blank title.
pub fn block_title(title: &str) -> (t: Option<String>)
    ensures
        match t {
            Some(s) => trim_ws(title@).len() > 0 && s@ == " \u{25c6} "@ + trim_ws(title@) + " "@,
            None => trim_ws(title@).len() == 0,
        },
{
    let chars = chars_of(title);
    let (lo, hi) = crate::text::trim_bounds(&chars, 0, chars.len());
    assert(chars@.subrange(0, chars@.len() as int) =~= chars@);
    if lo == hi {
        return None;
    }
    let mut s = String::from_str(" \u{25c6} ");
    let t = crate::text::string_of_range(&chars, lo, hi);
    s.append(t.as_str());
    s.append(" ");
    Some(s)
}

/// A rectangle of terminal cells.
#[derive(Debug, Clone, Copy, PartialEq, Eq, Structural)]
pub struct Area {
    pub x: u16,
    pub y: u16,
    pub width: u16,
    pub height: u16,
}

/// The width of a menu panel: fitted to its content (the content width is
/// cut to 16 bits), at least as wide as the logo plus two on a page with
/// the logo, else at least 36; never wider than the screen less four.
pub open spec fn panel_width_spec(content_w: usize, logo: bool, screen_w: u16, art_w: u16) -> int {
    let fit = content_w as u16;
    let want = if logo && art_w > 0 {
        if fit >= art_w + 2 {
            fit as int
        } else {
            art_w + 2
        }
    } else if fit >= 36 {
        fit as int
    } else {
        36
    };
    let cap = if screen_w >= 4 {
        screen_w - 4
    } else {
        0
    };
    if want <= cap {
        want
    } else {
        cap
    }
}

/// The width of a menu panel.
pub fn panel_width(content_w: usize, logo: bool, screen_w: u16, art_w: u16) -> (w: u16)
    requires
        art_w + 2 <= u16::MAX,
    ensures
        w == panel_width_spec(content_w, logo, screen_w, art_w),
{
    let fit = content_w as u16;
    let want = if logo && art_w > 0 {
        if fit >= art_w + 2 {
            fit
        } else {
            art_w + 2
        }
    } else if fit >= 36 {
        fit
    } else {
        36
    };
    let cap = if screen_w >= 4 {
        screen_w - 4
    } else {
        0
    };
    if want <= cap {
        want
    } else {
        cap
    }
}

/// Where a panel (and the logo above it) go on the screen.
pub open spec fn place_spec(screen: Area, width: u16, panel_h: u16, logo: bool, art_w: u16, art_h: u16) -> (
    Area,
    Option<Area>,
) {
    let logo_h = art_h + 1;
    let show = logo && art_h > 0 && screen.height > panel_h + logo_h + 2 && screen.width >= art_w;
    let total = panel_h + if show {
        logo_h
    } else {
        0
    };
    let top = screen.y + (if screen.height >= total {
        (screen.height - total) as int
    } else {
        0
    }) / 2;
    let panel = Area {
        x: (screen.x + (if screen.width >= width {
            (screen.width - width) as int
        } else {
            0
        }) / 2) as u16,
        y: (top + if show {
            logo_h as int
        } else {
            0
        }) as u16,
        width: if width <= screen.width {
            width
        } else {
            screen.width
        },
        height: panel_h,
    };
    let art = if show {
        Some(
            Area {
                x: (screen.x + (if screen.width >= art_w {
                    (screen.width - art_w) as int
                } else {
                    0
                }) / 2) as u16,
                y: top as u16,
                width: art_w,
                height: art_h,
            },
        )
    } else {
        None
    };
    (panel, art)
}

/// Places a panel, with the logo above it when asked for and when the
/// screen has room (the two are centred together, vertically): the panel's
/// area, and the logo's if it is shown.
pub fn place_panel(screen: Area, width: u16, panel_h: u16, logo: bool, art_w: u16, art_h: u16) -> (r: (
    Area,
    Option<Area>,
))
    requires
        screen.x + screen.width <= u16::MAX,
        screen.y + screen.height <= u16::MAX,
        panel_h + art_h + 3 <= u16::MAX,
    ensures
        r == place_spec(screen, width, panel_h, logo, art_w, art_h),
{
    let logo_h = art_h + 1;
    let show = logo && art_h > 0 && screen.height > panel_h + logo_h + 2 && screen.width >= art_w;
    let total = panel_h + if show {
        logo_h
    } else {
        0
    };
    let top = screen.y + (if screen.height >= total {
        screen.height - total
    } else {
        0
    }) / 2;
    let panel = Area {
        x: screen.x + (if screen.width >= width {
            screen.width - width
        } else {
            0
        }) / 2,
        y: top + if show {
            logo_h
        } else {
            0
        },
        width: if width <= screen.width {
            width
        } else {
            screen.width
        },
        height: panel_h,
    };
    let art = if show {
        Some(
            Area {
                x: screen.x + (if screen.width >= art_w {
                    screen.width - art_w
                } else {
                    0
                }) / 2,
                y: top,
                width: art_w,
                height: art_h,
            },
        )
    } else {
        None
    };
    (panel, art)
}

/// The logo with the theme's colour on its cells that bring no colour of
/// their own and are not blank (plain-text art).
pub open spec fn tint_spec(art: Seq<Seq<ArtCell>>, color: TermColor) -> Seq<Seq<ArtCell>> {
    art.map_values(
        |line: Seq<ArtCell>|
            line.map_values(
                |c: ArtCell|
                    if c.fg is None && c.bg is None && !crate::text::is_ws(c.ch) {
                        ArtCell { ch: c.ch, fg: Some(color), bg: None }
                    } else {
                        c
                    },
            ),
    )
}

/// The logo in the theme's colour where it has none.
pub fn tint_logo(art: &Vec<Vec<ArtCell>>, color: TermColor) -> (out: Vec<Vec<ArtCell>>)
    ensures
        out@.map_values(|l: Vec<ArtCell>| l@) == tint_spec(art@.map_values(|l: Vec<ArtCell>| l@), color),
{
    let ghost src = art@.map_values(|l: Vec<ArtCell>| l@);
    let mut out: Vec<Vec<ArtCell>> = Vec::new();
    let mut i: usize = 0;
    while i < art.len()
        invariant
            0 <= i <= art@.len(),
            src == art@.map_values(|l: Vec<ArtCell>| l@),
            out@.map_values(|l: Vec<ArtCell>| l@) == tint_spec(src, color).take(i as int),
        decreases art@.len() - i,
    {
        let line = &art[i];
        let mut row: Vec<ArtCell> = Vec::new();
        let mut k: usize = 0;
        while k < line.len()
            invariant
                0 <= k <= line@.len(),
                row@ == tint_spec(seq![line@], color)[0].take(k as int),
            decreases line@.len() - k,
        {
            let c = line[k];
            let blank = crate::text::is_whitespace(c.ch);
            let t = if c.fg.is_none() && c.bg.is_none() && !blank {
                ArtCell { ch: c.ch, fg: Some(color), bg: None }
            } else {
                c
            };
            row.push(t);
            assert(row@ =~= tint_spec(seq![line@], color)[0].take(k + 1));
            k = k + 1;
        }
        let ghost before = out@;
        proof {
            assert(tint_spec(seq![line@], color)[0].take(line@.len() as int) =~= tint_spec(seq![line@], color)[0]);
            assert(src[i as int] == line@);
        }
        out.push(row);
        proof {
            assert(tint_spec(seq![line@], color)[0] =~= tint_spec(src, color)[i as int]);
            assert(out@.map_values(|l: Vec<ArtCell>| l@) =~= before.map_values(|l: Vec<ArtCell>| l@).push(row@));
            assert(out@.map_values(|l: Vec<ArtCell>| l@) =~= tint_spec(src, color).take(i + 1));
        }
        i = i + 1;
    }
    assert(tint_spec(src, color).take(art@.len() as int) =~= tint_spec(src, color));
    out
}

/// The note beside the EXP gauge: no upstream, in sync, or how many
/// commits wait to be pushed.
pub fn exp_note(ahead: Option<usize>) -> (s: String)
    ensures
        s@ == match ahead {
            None => "无上游"@,
            Some(n) => if n == 0 {
                "已同步"@
            } else {
                "\u{2191}"@ + crate::text::decimal(n as nat) + " 待推送"@
            },
        },
{
    match ahead {
        None => String::from_str("无上游"),
        Some(n) => if n == 0 {
            String::from_str("已同步")
        } else {
            let mut s = String::from_str("\u{2191}");
            let d = crate::text::decimal_string(n);
            s.append(d.as_str());
            s.append(" 待推送");
            s
        },
    }
}

/// What the status window of the main menu shows about the repository.
#[derive(Debug, Clone)]
pub struct RepoVitals {
    /// Current branch
    pub branch: String,
    /// Level (shown as `Lv.n`)
    pub level: usize,
    /// Changed files in the work tree
    pub changes: usize,
    /// Stash entries
    pub stashes: usize,
    /// Commits ahead of the upstream; None without an upstream
    pub ahead: Option<usize>,
}

/// The filled cells of the three gauges: HP drains with changes, MP with
/// stashes, EXP fills with commits to push (each within `GAUGE_CELLS`).
pub fn vitals_gauges(v: &RepoVitals) -> (g: (usize, usize, usize))
    ensures
        g.0 == GAUGE_CELLS - (if v.changes <= GAUGE_CELLS {
            v.changes as int
        } else {
            GAUGE_CELLS as int
        }),
        g.1 == GAUGE_CELLS - (if v.stashes <= GAUGE_CELLS {
            v.stashes as int
        } else {
            GAUGE_CELLS as int
        }),
        g.2 == match v.ahead {
            Some(n) => if n <= GAUGE_CELLS {
                n as int
            } else {
                GAUGE_CELLS as int
            },
            None => 0,
        },
        g.0 <= GAUGE_CELLS && g.1 <= GAUGE_CELLS && g.2 <= GAUGE_CELLS,
{
    let c = if v.changes <= GAUGE_CELLS {
        v.changes
    } else {
        GAUGE_CELLS
    };
    let s = if v.stashes <= GAUGE_CELLS {
        v.stashes
    } else {
        GAUGE_CELLS
    };
    let a = match v.ahead {
        Some(n) => if n <= GAUGE_CELLS {
            n
        } else {
            GAUGE_CELLS
        },
        None => 0,
    };
    (GAUGE_CELLS - c, GAUGE_CELLS - s, a)
}

/// `head` followed by a number.
fn with_number(head: &str, n: usize) -> (s: String)
    ensures
        s@ == head@ + crate::text::decimal(n as nat),
{
    let mut s = String::from_str(head);
    let d = crate::text::decimal_string(n);
    s.append(d.as_str());
    s
}

/// The right-hand notes of the status rows: level, changes, stashes and
/// the upstream note.
pub fn vitals_notes(v: &RepoVitals) -> (r: (String, String, String, String))
    ensures
        r.0@ == "Lv."@ + crate::text::decimal(v.level as nat),
        r.1@ == "改动 \u{d7}"@ + crate::text::decimal(v.changes as nat),
        r.2@ == "贮藏 \u{d7}"@ + crate::text::decimal(v.stashes as nat),
        r.3@ == match v.ahead {
            None => "无上游"@,
            Some(n) => if n == 0 {
                "已同步"@
            } else {
                "\u{2191}"@ + crate::text::decimal(n as nat) + " 待推送"@
            },
        },
{
    (
        with_number("Lv.", v.level),
        with_number("改动 \u{d7}", v.changes),
        with_number("贮藏 \u{d7}", v.stashes),
        exp_note(v.ahead),
    )
}

/// Which parts of the main menu page show and where the page starts.
#[derive(Debug, Clone, Copy, PartialEq, Eq, Structural)]
pub struct RpgLayout {
    /// Panel width
    pub width: u16,
    /// The logo and its divider show
    pub logo: bool,
    /// The status window shows
    pub status: bool,
    /// The description window shows
    pub hint: bool,
    /// Blank rows around the logo and divider (0 or 1)
    pub breathe: u16,
    /// Left column of the panels
    pub x: u16,
    /// Top row of the page
    pub y: u16,
}

/// Rows the main menu page needs (each window with its shadow row).
pub open spec fn rpg_total(menu_h: int, logo: bool, status: bool, hint: bool) -> int {
    menu_h + 2 + (if logo {
        4int
    } else {
        0
    }) + (if status {
        7int
    } else {
        0
    }) + (if hint {
        4int
    } else {
        0
    })
}

/// The main menu page on a screen: panels 48 columns wide at most; when
/// the screen is too short, the logo goes first, then the status window,
/// then the description window; spare height gives the logo room.
pub open spec fn rpg_spec(screen: Area, items: int) -> RpgLayout {
    let width = if 48 <= screen.width - 4 {
        48
    } else if screen.width >= 4 {
        screen.width - 4
    } else {
        0
    };
    let menu_h = items + 2;
    let logo = rpg_total(menu_h, true, true, true) <= screen.height;
    let status = rpg_total(menu_h, logo, true, true) <= screen.height;
    let hint = rpg_total(menu_h, logo, status, true) <= screen.height;
    let need = rpg_total(menu_h, logo, status, hint);
    let breathe: int = if logo && screen.height >= need + 2 {
        1
    } else {
        0
    };
    let need2 = need + 2 * breathe;
    RpgLayout {
        width: width as u16,
        logo,
        status,
        hint,
        breathe: breathe as u16,
        x: (screen.x + (if screen.width >= width {
            screen.width - width
        } else {
            0
        }) / 2) as u16,
        y: (screen.y + (if screen.height >= need2 {
            screen.height - need2
        } else {
            0
        }) / 2) as u16,
    }
}

/// Lays out the main menu page for `items` commands.
pub fn rpg_layout(screen: Area, items: u16) -> (l: RpgLayout)
    requires
        items + 21 <= u16::MAX,
        screen.x + screen.width <= u16::MAX,
        screen.y + screen.height <= u16::MAX,
    ensures
        l == rpg_spec(screen, items as int),
{
    let width: u16 = if screen.width >= 52 {
        48
    } else if screen.width >= 4 {
        screen.width - 4
    } else {
        0
    };
    let menu_h = items + 2;
    let total = |logo: bool, status: bool, hint: bool| -> (t: u16)
        requires
            menu_h + 19 <= u16::MAX,
        ensures
            t == rpg_total(menu_h as int, logo, status, hint),
    {
        menu_h + 2 + (if logo {
            4
        } else {
            0
        }) + (if status {
            7
        } else {
            0
        }) + (if hint {
            4
        } else {
            0
        })
    };
    let logo = total(true, true, true) <= screen.height;
    let status = total(logo, true, true) <= screen.height;
    let hint = total(logo, status, true) <= screen.height;
    let need = total(logo, status, hint);
    let breathe: u16 = if logo && screen.height >= need + 2 {
        1
    } else {
        0
    };
    let need2 = need + 2 * breathe;
    RpgLayout {
        width,
        logo,
        status,
        hint,
        breathe,
        x: screen.x + (if screen.width >= width {
            screen.width - width
        } else {
            0
        }) / 2,
        y: screen.y + (if screen.height >= need2 {
            screen.height - need2
        } else {
            0
        }) / 2,
    }
}


/// `usize::from_str`: an optional `+`, then at least one digit, naming at
/// most `usize::MAX`.
pub open spec fn parse_usize_spec(s: Seq<char>) -> Option<usize> {
    let d = if s.len() > 0 && s[0] == '+' {
        s.drop_first()
    } else {
        s
    };
    if d.len() > 0 && all_digits(d) && digits_value(d) <= usize::MAX {
        Some(digits_value(d) as usize)
    } else {
        None
    }
}

/// Parses an unsigned number written in decimal.
pub fn parse_usize(s: &Vec<char>) -> (r: Option<usize>)
    ensures
        r == parse_usize_spec(s@),
{
    let start: usize = if s.len() > 0 && s[0] == '+' {
        1
    } else {
        0
    };
    let ghost d = if s@.len() > 0 && s@[0] == '+' {
        s@.drop_first()
    } else {
        s@
    };
    assert(d =~= s@.subrange(start as int, s@.len() as int));
    if start >= s.len() {
        return None;
    }
    let mut v: u128 = 0;
    let mut i = start;
    while i < s.len()
        invariant
            start <= i <= s@.len(),
            start < s@.len(),
            d == s@.subrange(start as int, s@.len() as int),
            d == (if s@.len() > 0 && s@[0] == '+' {
                s@.drop_first()
            } else {
                s@
            }),
            all_digits(s@.subrange(start as int, i as int)),
            v == digits_value(s@.subrange(start as int, i as int)),
            v <= usize::MAX,
        decreases s@.len() - i,
    {
        let c = s[i];
        let ghost pre = s@.subrange(start as int, i as int);
        let ghost now = s@.subrange(start as int, i + 1);
        assert(now.drop_last() =~= pre);
        if c < '0' || c > '9' {
            proof {
                assert(d[(i - start) as int] == s@[i as int]);
            }
            return None;
        }
        let dv = (c as u128) - ('0' as u128);
        if v * 10 + dv > usize::MAX as u128 {
            proof {
                assert(all_digits(now));
                if all_digits(d) {
                    lemma_digits_grow(d, (i + 1 - start) as int);
                    assert(d.take((i + 1 - start) as int) =~= now);
                }
            }
            return None;
        }
        v = v * 10 + dv;
        i = i + 1;
    }
    Some(v as usize)
}

/// How many of the lines hold more than white space.
pub open spec fn nonblank_count(lines: Seq<Seq<char>>) -> nat
    decreases lines.len(),
{
    if lines.len() == 0 {
        0
    } else {
        nonblank_count(lines.drop_last()) + if trim_ws(lines.last()).len() > 0 {
            1nat
        } else {
            0nat
        }
    }
}

/// How many lines of `text` hold more than white space.
pub fn count_nonblank_lines(text: &str) -> (n: usize)
    ensures
        n == nonblank_count(str_lines(text@)),
{
    let lines = str_lines_of(text);
    let ghost ls = lines@.map_values(|l: Vec<char>| l@);
    let mut n: usize = 0;
    let mut i: usize = 0;
    while i < lines.len()
        invariant
            0 <= i <= lines@.len(),
            ls == lines@.map_values(|l: Vec<char>| l@),
            ls == str_lines(text@),
            n == nonblank_count(ls.take(i as int)),
            n <= i,
        decreases lines@.len() - i,
    {
        let line = &lines[i];
        let (lo, hi) = trim_bounds(line, 0, line.len());
        assert(line@.subrange(0, line@.len() as int) =~= line@);
        assert(ls.take(i + 1).drop_last() =~= ls.take(i as int));
        assert(ls[i as int] == line@);
        if lo < hi {
            n = n + 1;
        }
        i = i + 1;
    }
    assert(ls.take(lines@.len() as int) =~= ls);
    n
}

/// What a git command printed: its standard output when it succeeded, None
/// when it failed.
pub open spec fn vitals_spec(
    branch_out: Seq<char>,
    level_out: Option<Seq<char>>,
    status_out: Option<Seq<char>>,
    stash_out: Option<Seq<char>>,
    ahead_out: Option<Seq<char>>,
    v: RepoVitals,
) -> bool {
    &&& v.branch@ == if trim_ws(branch_out).len() == 0 {
        "HEAD"@
    } else {
        trim_ws(branch_out)
    }
    &&& v.level == match level_out {
        Some(o) => match parse_usize_spec(trim_ws(o)) {
            Some(n) => n,
            None => 0,
        },
        None => 0,
    }
    &&& v.changes == match status_out {
        Some(o) => nonblank_count(str_lines(o)),
        None => 0,
    }
    &&& v.stashes == match stash_out {
        Some(o) => nonblank_count(str_lines(o)),
        None => 0,
    }
    &&& v.ahead == match ahead_out {
        Some(o) => parse_usize_spec(trim_ws(o)),
        None => None,
    }
}

/// The number a command printed, trimmed; None when it printed no number.
fn printed_number(out: &str) -> (r: Option<usize>)
    ensures
        r == parse_usize_spec(trim_ws(out@)),
{
    let chars = chars_of(out);
    let (lo, hi) = trim_bounds(&chars, 0, chars.len());
    assert(chars@.subrange(0, chars@.len() as int) =~= chars@);
    let t = crate::text::sub_chars(&chars, lo, hi);
    parse_usize(&t)
}

/// The status window's figures from what git printed: the current branch
/// (`HEAD` when detached), the commit count, the changed files of `status
/// --porcelain`, the stash entries and the commits ahead of the upstream
/// (None without one). A failed command (None) counts as 0, or as no
/// upstream.
pub fn vitals_from(
    branch_out: &str,
    level_out: Option<&str>,
    status_out: Option<&str>,
    stash_out: Option<&str>,
    ahead_out: Option<&str>,
) -> (v: RepoVitals)
    ensures
        vitals_spec(
            branch_out@,
            match level_out { Some(o) => Some(o@), None => None },
            match status_out { Some(o) => Some(o@), None => None },
            match stash_out { Some(o) => Some(o@), None => None },
            match ahead_out { Some(o) => Some(o@), None => None },
            v,
        ),
{
    let chars = chars_of(branch_out);
    let (lo, hi) = trim_bounds(&chars, 0, chars.len());
    assert(chars@.subrange(0, chars@.len() as int) =~= chars@);
    let branch = if lo < hi {
        crate::text::string_of_range(&chars, lo, hi)
    } else {
        proof {
            reveal_strlit("HEAD");
        }
        String::from_str("HEAD")
    };
    let level = match level_out {
        Some(o) => match printed_number(o) {
            Some(n) => n,
            None => 0,
        },
        None => 0,
    };
    let changes = match status_out {
        Some(o) => count_nonblank_lines(o),
        None => 0,
    };
    let stashes = match stash_out {
        Some(o) => count_nonblank_lines(o),
        None => 0,
    };
    let ahead = match ahead_out {
        Some(o) => printed_number(o),
        None => None,
    };
    RepoVitals { branch, level, changes, stashes, ahead }
}

} // verus!
