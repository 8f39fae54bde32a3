//! Colour helpers: quantizing RGB to the xterm-256 palette and telling a
//! light terminal background from `COLORFGBG`.

use vstd::prelude::*;

use crate::text::{chars_of, split_chars, split_on, trim_bounds, trim_ws};
use crate::ui::rows::ChangeType;

verus! {

/// Level of one component in the 6×6×6 colour cube (levels 0, 95, 135, 175, 215, 255).
pub open spec fn cube_level(v: int) -> int {
    if v < 48 {
        0
    } else if v < 115 {
        1
    } else if (v - 35) / 40 > 5 {
        5
    } else {
        (v - 35) / 40
    }
}

/// Component value of a cube level.
pub open spec fn level_value(i: int) -> int {
    if i == 0 {
        0
    } else {
        55 + 40 * i
    }
}

/// Squared difference.
pub open spec fn sq(a: int, b: int) -> int {
    (a - b) * (a - b)
}

/// Index of the nearest of the 24 greys (8, 18, ..., 238) to the mean of
/// the components.
pub open spec fn gray_index(r: int, g: int, b: int) -> int {
    let avg = (r + g + b) / 3;
    if avg < 3 {
        0
    } else if (avg - 3) / 10 > 23 {
        23
    } else {
        (avg - 3) / 10
    }
}

/// The xterm-256 colour of an RGB value: the nearest cube colour (16-231)
/// or the nearest grey (232-255), whichever is closer by squared distance
/// (the cube wins a tie).
pub open spec fn xterm256_spec(r: int, g: int, b: int) -> int {
    let (ri, gi, bi) = (cube_level(r), cube_level(g), cube_level(b));
    let cube = sq(r, level_value(ri)) + sq(g, level_value(gi)) + sq(b, level_value(bi));
    let k = gray_index(r, g, b);
    let gv = 8 + 10 * k;
    let gray = sq(r, gv) + sq(g, gv) + sq(b, gv);
    if gray < cube {
        232 + k
    } else {
        16 + 36 * ri + 6 * gi + bi
    }
}

/// Cube level of a component.
fn level(v: u32) -> (l: u32)
    requires
        v <= 255,
    ensures
        l == cube_level(v as int),
        l <= 5,
{
    if v < 48 {
        0
    } else if v < 115 {
        1
    } else if (v - 35) / 40 > 5 {
        5
    } else {
        (v - 35) / 40
    }
}

/// Component value of a cube level.
fn level_val(i: u32) -> (v: u32)
    requires
        i <= 5,
    ensures
        v == level_value(i as int),
        v <= 255,
{
    if i == 0 {
        0
    } else {
        55 + 40 * i
    }
}

/// Squared difference of two components.
fn sq_diff(a: u32, b: u32) -> (s: u32)
    requires
        a <= 255,
        b <= 255,
    ensures
        s == sq(a as int, b as int),
        s <= 65025,
{
    let d = if a >= b {
        a - b
    } else {
        b - a
    };
    assert(d * d <= 65025) by (nonlinear_arith)
        requires
            d <= 255,
    ;
    assert(d * d == (a - b) * (a - b)) by (nonlinear_arith)
        requires
            d == a - b || d == b - a,
    ;
    d * d
}

/// Quantizes an RGB colour to the xterm-256 palette.
pub fn rgb_to_xterm256(r: u8, g: u8, b: u8) -> (c: u8)
    ensures
        c == xterm256_spec(r as int, g as int, b as int),
{
    let (r, g, b) = (r as u32, g as u32, b as u32);
    let (ri, gi, bi) = (level(r), level(g), level(b));
    let cube = sq_diff(r, level_val(ri)) + sq_diff(g, level_val(gi)) + sq_diff(b, level_val(bi));
    let avg = (r + g + b) / 3;
    let k = if avg < 3 {
        0
    } else if (avg - 3) / 10 > 23 {
        23
    } else {
        (avg - 3) / 10
    };
    let gv = 8 + 10 * k;
    let gray = sq_diff(r, gv) + sq_diff(g, gv) + sq_diff(b, gv);
    if gray < cube {
        (232 + k) as u8
    } else {
        (16 + 36 * ri + 6 * gi + bi) as u8
    }
}

/// Value of a decimal digit character.
pub open spec fn digit_value(c: char) -> int {
    (c as int) - ('0' as int)
}

/// Whether every character is a decimal digit.
pub open spec fn all_digits(s: Seq<char>) -> bool {
    forall|i: int| 0 <= i < s.len() ==> '0' <= #[trigger] s[i] <= '9'
}

/// The number the digits spell.
pub open spec fn digits_value(s: Seq<char>) -> int
    decreases s.len(),
{
    if s.len() == 0 {
        0
    } else {
        digits_value(s.drop_last()) * 10 + digit_value(s.last())
    }
}

/// `u8::from_str`: an optional `+`, then at least one digit, naming at most 255.
pub open spec fn parse_u8_spec(s: Seq<char>) -> Option<u8> {
    let d = if s.len() > 0 && s[0] == '+' {
        s.drop_first()
    } else {
        s
    };
    if d.len() > 0 && all_digits(d) && digits_value(d) <= 255 {
        Some(digits_value(d) as u8)
    } else {
        None
    }
}

/// Whether `COLORFGBG` (`fg;bg` or `fg;default;bg`) names a light
/// background: its last field, trimmed, is colour 7 or 15 (white in the
/// ANSI convention); None when that field is not a number.
pub open spec fn colorfgbg_spec(v: Seq<char>) -> Option<bool> {
    match parse_u8_spec(trim_ws(split_on(v, ';').last())) {
        Some(bg) => Some(bg == 7 || bg == 15),
        None => None,
    }
}

/// Digits grow their value.
proof fn lemma_digits_value_nonneg(s: Seq<char>)
    requires
        all_digits(s),
    ensures
        digits_value(s) >= 0,
    decreases s.len(),
{
    if s.len() > 0 {
        lemma_digits_value_nonneg(s.drop_last());
    }
}

/// Parses an unsigned byte written in decimal.
pub fn parse_u8(s: &Vec<char>) -> (r: Option<u8>)
    ensures
        r == parse_u8_spec(s@),
{
    let start: usize = if s.len() > 0 && s[0] == '+' {
        1
    } else {
        0
    };
    let ghost d = if s@.len() > 0 && s@[0] == '+' {
        s@.drop_first()
    } else {
        s@
    };
    assert(d =~= s@.subrange(start as int, s@.len() as int));
    if start >= s.len() {
        return None;
    }
    let mut v: u32 = 0;
    let mut i = start;
    while i < s.len()
        invariant
            start <= i <= s@.len(),
            start < s@.len(),
            d == s@.subrange(start as int, s@.len() as int),
            d == (if s@.len() > 0 && s@[0] == '+' {
                s@.drop_first()
            } else {
                s@
            }),
            all_digits(s@.subrange(start as int, i as int)),
            v == digits_value(s@.subrange(start as int, i as int)),
            v <= 255,
        decreases s@.len() - i,
    {
        let c = s[i];
        let ghost pre = s@.subrange(start as int, i as int);
        let ghost now = s@.subrange(start as int, i + 1);
        assert(now.drop_last() =~= pre);
        if c < '0' || c > '9' {
            proof {
                assert(s@[i as int] == c);
                assert(d[(i - start) as int] == s@[i as int]);
                assert(!all_digits(d));
            }
            return None;
        }
        let dv = (c as u32) - ('0' as u32);
        if v * 10 + dv > 255 {
            proof {
                assert(all_digits(now));
                assert(digits_value(now) > 255);
                if all_digits(d) {
                    lemma_prefix_grows(d, (i + 1 - start) as int);
                    assert(d.take((i + 1 - start) as int) =~= now);
                }
            }
            return None;
        }
        v = v * 10 + dv;
        i = i + 1;
    }
    Some(v as u8)
}

/// A longer run of digits is worth at least as much as its prefix.
proof fn lemma_prefix_grows(s: Seq<char>, k: int)
    requires
        0 <= k <= s.len(),
        all_digits(s),
    ensures
        digits_value(s) >= digits_value(s.take(k)),
    decreases s.len() - k,
{
    if k < s.len() {
        lemma_prefix_grows(s.drop_last(), k);
        assert(s.drop_last().take(k) =~= s.take(k));
        lemma_digits_value_nonneg(s.drop_last());
        assert(digits_value(s) == digits_value(s.drop_last()) * 10 + digit_value(s.last()));
        assert(digit_value(s.last()) >= 0);
    } else {
        assert(s.take(k) =~= s);
    }
}

/// Whether `COLORFGBG` names a light background.
pub fn parse_colorfgbg(value: &str) -> (r: Option<bool>)
    ensures
        r == colorfgbg_spec(value@),
{
    let chars = chars_of(value);
    let fields = split_chars(&chars, ';');
    let last = &fields[fields.len() - 1];
    proof {
        assert(crate::text::chars_view(fields@).last() == last@);
    }
    let (lo, hi) = trim_bounds(last, 0, last.len());
    assert(last@.subrange(0, last@.len() as int) =~= last@);
    let field = crate::text::sub_chars(last, lo, hi);
    match parse_u8(&field) {
        Some(bg) => Some(bg == 7 || bg == 15),
        None => None,
    }
}

/// A terminal colour: direct RGB, or an index of the xterm-256 palette.
#[derive(Debug, Clone, Copy, PartialEq, Eq, Structural)]
pub enum TermColor {
    /// 24-bit colour
    Rgb(u8, u8, u8),
    /// xterm-256 palette index
    Indexed(u8),
}

/// The colour a terminal gets for an RGB value: RGB itself where it shows
/// 24-bit colour, else the nearest xterm-256 colour (terminals without
/// 24-bit colour misread `38;2;r;g;b`, and may blink when r is 5 or 6).
pub open spec fn term_color_spec(r: u8, g: u8, b: u8, truecolor: bool) -> TermColor {
    if truecolor {
        TermColor::Rgb(r, g, b)
    } else {
        TermColor::Indexed(xterm256_spec(r as int, g as int, b as int) as u8)
    }
}

/// The colour a terminal gets for an RGB value.
pub fn term_color(r: u8, g: u8, b: u8, truecolor: bool) -> (c: TermColor)
    ensures
        c == term_color_spec(r, g, b, truecolor),
{
    if truecolor {
        TermColor::Rgb(r, g, b)
    } else {
        TermColor::Indexed(rgb_to_xterm256(r, g, b))
    }
}

/// The colours of the interface, in one place.
#[derive(Debug)]
pub struct Theme {
    /// Whether this is the light variant (syntax colours follow it)
    pub light: bool,
    /// Secondary text and line numbers
    pub fg_dim: TermColor,
    /// Line numbers of the current chunk, highlighted text
    pub fg_bright: TermColor,
    /// Blue (one-sided change)
    pub blue: TermColor,
    /// Green (agreeing change, ready)
    pub green: TermColor,
    /// Red (conflict)
    pub red: TermColor,
    /// Amber (messages and prompts)
    pub amber: TermColor,
    /// Pane borders
    pub border: TermColor,
    /// Badge text (dark, on an accent background)
    pub badge_fg: TermColor,
    /// Scrollbar thumb
    pub scrollbar_thumb: TermColor,
    /// Key cap text (hint bar)
    pub keycap_fg: TermColor,
    /// Key cap background (hint bar)
    pub keycap_bg: TermColor,
    /// Hint bar descriptions
    pub hint_fg: TermColor,
    /// Menu logo characters without a colour of their own
    pub logo: TermColor,
    /// Placeholder text of a pending chunk in the result pane
    pub placeholder_fg: TermColor,
    /// Menu: double-line frame and titles
    pub rpg_frame: TermColor,
    /// Menu: accent (selected row, cursor)
    pub rpg_accent: TermColor,
    /// Menu: HP gauge
    pub rpg_hp: TermColor,
    /// Menu: MP gauge
    pub rpg_mp: TermColor,
    /// Menu: EXP gauge
    pub rpg_exp: TermColor,
    /// Menu: empty gauge cells
    pub rpg_gauge_empty: TermColor,
    /// Menu: level digits
    pub rpg_gold: TermColor,
    /// Band background of a modification (normal, current)
    pub band_modified: (TermColor, TermColor),
    /// Band background of an addition (normal, current)
    pub band_added: (TermColor, TermColor),
    /// Band background of a deletion (normal, current)
    pub band_deleted: (TermColor, TermColor),
    /// Band background of a conflict (normal, current)
    pub band_conflict: (TermColor, TermColor),
    /// Word emphasis of a modification (normal, current)
    pub emph_modified: (TermColor, TermColor),
    /// Word emphasis of an addition (normal, current)
    pub emph_added: (TermColor, TermColor),
    /// Word emphasis of a deletion (normal, current)
    pub emph_deleted: (TermColor, TermColor),
    /// Word emphasis of a conflict (normal, current)
    pub emph_conflict: (TermColor, TermColor),
}

/// The colours of the dark theme (Tokyo Night).
pub open spec fn tokyo_night_spec(t: Theme, truecolor: bool) -> bool {
        &&& !t.light
        &&& t.fg_dim == term_color_spec(108, 116, 130, truecolor)
        &&& t.fg_bright == term_color_spec(205, 214, 244, truecolor)
        &&& t.blue == term_color_spec(122, 162, 247, truecolor)
        &&& t.green == term_color_spec(158, 206, 106, truecolor)
        &&& t.red == term_color_spec(224, 108, 117, truecolor)
        &&& t.amber == term_color_spec(229, 192, 123, truecolor)
        &&& t.border == term_color_spec(102, 112, 148, truecolor)
        &&& t.badge_fg == term_color_spec(16, 18, 24, truecolor)
        &&& t.scrollbar_thumb == term_color_spec(160, 168, 192, truecolor)
        &&& t.keycap_fg == term_color_spec(205, 214, 244, truecolor)
        &&& t.keycap_bg == term_color_spec(45, 50, 66, truecolor)
        &&& t.hint_fg == term_color_spec(170, 178, 196, truecolor)
        &&& t.logo == term_color_spec(255, 118, 48, truecolor)
        &&& t.placeholder_fg == term_color_spec(196, 132, 138, truecolor)
        &&& t.rpg_frame == term_color_spec(234, 225, 198, truecolor)
        &&& t.rpg_accent == term_color_spec(255, 122, 47, truecolor)
        &&& t.rpg_hp == term_color_spec(126, 224, 138, truecolor)
        &&& t.rpg_mp == term_color_spec(108, 178, 255, truecolor)
        &&& t.rpg_exp == term_color_spec(255, 176, 79, truecolor)
        &&& t.rpg_gauge_empty == term_color_spec(43, 54, 80, truecolor)
        &&& t.rpg_gold == term_color_spec(255, 195, 92, truecolor)
        &&& t.band_modified == (term_color_spec(36, 56, 96, truecolor), term_color_spec(52, 80, 132, truecolor))
        &&& t.band_added == (term_color_spec(26, 42, 31, truecolor), term_color_spec(40, 66, 48, truecolor))
        &&& t.band_deleted == (term_color_spec(44, 47, 56, truecolor), term_color_spec(60, 64, 76, truecolor))
        &&& t.band_conflict == (term_color_spec(58, 30, 34, truecolor), term_color_spec(94, 45, 53, truecolor))
        &&& t.emph_modified == (term_color_spec(72, 102, 158, truecolor), term_color_spec(90, 126, 186, truecolor))
        &&& t.emph_added == (term_color_spec(52, 88, 62, truecolor), term_color_spec(66, 110, 78, truecolor))
        &&& t.emph_deleted == (term_color_spec(76, 81, 94, truecolor), term_color_spec(94, 100, 116, truecolor))
        &&& t.emph_conflict == (term_color_spec(110, 52, 62, truecolor), term_color_spec(140, 66, 78, truecolor))
}

/// The colours of the light theme (after Maple Light, with pastel bands).
pub open spec fn light_spec(t: Theme, truecolor: bool) -> bool {
        &&& t.light
        &&& t.fg_dim == term_color_spec(100, 108, 122, truecolor)
        &&& t.fg_bright == term_color_spec(30, 41, 59, truecolor)
        &&& t.blue == term_color_spec(5, 133, 168, truecolor)
        &&& t.green == term_color_spec(71, 143, 20, truecolor)
        &&& t.red == term_color_spec(189, 81, 81, truecolor)
        &&& t.amber == term_color_spec(195, 117, 34, truecolor)
        &&& t.border == term_color_spec(148, 156, 176, truecolor)
        &&& t.badge_fg == term_color_spec(255, 255, 255, truecolor)
        &&& t.scrollbar_thumb == term_color_spec(110, 120, 145, truecolor)
        &&& t.keycap_fg == term_color_spec(30, 41, 59, truecolor)
        &&& t.keycap_bg == term_color_spec(226, 230, 238, truecolor)
        &&& t.hint_fg == term_color_spec(71, 85, 105, truecolor)
        &&& t.logo == term_color_spec(214, 77, 0, truecolor)
        &&& t.placeholder_fg == term_color_spec(158, 70, 76, truecolor)
        &&& t.rpg_frame == term_color_spec(90, 74, 47, truecolor)
        &&& t.rpg_accent == term_color_spec(217, 95, 16, truecolor)
        &&& t.rpg_hp == term_color_spec(58, 150, 72, truecolor)
        &&& t.rpg_mp == term_color_spec(36, 110, 196, truecolor)
        &&& t.rpg_exp == term_color_spec(200, 120, 20, truecolor)
        &&& t.rpg_gauge_empty == term_color_spec(216, 210, 194, truecolor)
        &&& t.rpg_gold == term_color_spec(170, 122, 12, truecolor)
        &&& t.band_modified == (term_color_spec(219, 233, 249, truecolor), term_color_spec(196, 219, 244, truecolor))
        &&& t.band_added == (term_color_spec(222, 240, 216, truecolor), term_color_spec(200, 229, 192, truecolor))
        &&& t.band_deleted == (term_color_spec(229, 231, 236, truecolor), term_color_spec(212, 215, 223, truecolor))
        &&& t.band_conflict == (term_color_spec(250, 223, 224, truecolor), term_color_spec(245, 200, 202, truecolor))
        &&& t.emph_modified == (term_color_spec(176, 208, 242, truecolor), term_color_spec(152, 192, 236, truecolor))
        &&& t.emph_added == (term_color_spec(185, 220, 172, truecolor), term_color_spec(163, 206, 148, truecolor))
        &&& t.emph_deleted == (term_color_spec(203, 207, 217, truecolor), term_color_spec(186, 191, 204, truecolor))
        &&& t.emph_conflict == (term_color_spec(240, 178, 181, truecolor), term_color_spec(233, 154, 158, truecolor))
}

impl Theme {
    /// The theme for a light terminal, or the dark one.
    pub fn select(light: bool, truecolor: bool) -> (t: Theme)
        ensures
            light ==> light_spec(t, truecolor),
            !light ==> tokyo_night_spec(t, truecolor),
    {
        if light {
            Self::light(truecolor)
        } else {
            Self::tokyo_night(truecolor)
        }
    }

    /// The dark theme (Tokyo Night), the default.
    pub fn tokyo_night(truecolor: bool) -> (t: Theme)
        ensures
            tokyo_night_spec(t, truecolor),
    {
        Theme {
            light: false,
            fg_dim: term_color(108, 116, 130, truecolor),
            fg_bright: term_color(205, 214, 244, truecolor),
            blue: term_color(122, 162, 247, truecolor),
            green: term_color(158, 206, 106, truecolor),
            red: term_color(224, 108, 117, truecolor),
            amber: term_color(229, 192, 123, truecolor),
            border: term_color(102, 112, 148, truecolor),
            badge_fg: term_color(16, 18, 24, truecolor),
            scrollbar_thumb: term_color(160, 168, 192, truecolor),
            keycap_fg: term_color(205, 214, 244, truecolor),
            keycap_bg: term_color(45, 50, 66, truecolor),
            hint_fg: term_color(170, 178, 196, truecolor),
            logo: term_color(255, 118, 48, truecolor),
            placeholder_fg: term_color(196, 132, 138, truecolor),
            rpg_frame: term_color(234, 225, 198, truecolor),
            rpg_accent: term_color(255, 122, 47, truecolor),
            rpg_hp: term_color(126, 224, 138, truecolor),
            rpg_mp: term_color(108, 178, 255, truecolor),
            rpg_exp: term_color(255, 176, 79, truecolor),
            rpg_gauge_empty: term_color(43, 54, 80, truecolor),
            rpg_gold: term_color(255, 195, 92, truecolor),
            band_modified: (term_color(36, 56, 96, truecolor), term_color(52, 80, 132, truecolor)),
            band_added: (term_color(26, 42, 31, truecolor), term_color(40, 66, 48, truecolor)),
            band_deleted: (term_color(44, 47, 56, truecolor), term_color(60, 64, 76, truecolor)),
            band_conflict: (term_color(58, 30, 34, truecolor), term_color(94, 45, 53, truecolor)),
            emph_modified: (term_color(72, 102, 158, truecolor), term_color(90, 126, 186, truecolor)),
            emph_added: (term_color(52, 88, 62, truecolor), term_color(66, 110, 78, truecolor)),
            emph_deleted: (term_color(76, 81, 94, truecolor), term_color(94, 100, 116, truecolor)),
            emph_conflict: (term_color(110, 52, 62, truecolor), term_color(140, 66, 78, truecolor)),
        }
    }

    /// The light theme, for terminals with a white background.
    pub fn light(truecolor: bool) -> (t: Theme)
        ensures
            light_spec(t, truecolor),
    {
        Theme {
            light: true,
            fg_dim: term_color(100, 108, 122, truecolor),
            fg_bright: term_color(30, 41, 59, truecolor),
            blue: term_color(5, 133, 168, truecolor),
            green: term_color(71, 143, 20, truecolor),
            red: term_color(189, 81, 81, truecolor),
            amber: term_color(195, 117, 34, truecolor),
            border: term_color(148, 156, 176, truecolor),
            badge_fg: term_color(255, 255, 255, truecolor),
            scrollbar_thumb: term_color(110, 120, 145, truecolor),
            keycap_fg: term_color(30, 41, 59, truecolor),
            keycap_bg: term_color(226, 230, 238, truecolor),
            hint_fg: term_color(71, 85, 105, truecolor),
            logo: term_color(214, 77, 0, truecolor),
            placeholder_fg: term_color(158, 70, 76, truecolor),
            rpg_frame: term_color(90, 74, 47, truecolor),
            rpg_accent: term_color(217, 95, 16, truecolor),
            rpg_hp: term_color(58, 150, 72, truecolor),
            rpg_mp: term_color(36, 110, 196, truecolor),
            rpg_exp: term_color(200, 120, 20, truecolor),
            rpg_gauge_empty: term_color(216, 210, 194, truecolor),
            rpg_gold: term_color(170, 122, 12, truecolor),
            band_modified: (term_color(219, 233, 249, truecolor), term_color(196, 219, 244, truecolor)),
            band_added: (term_color(222, 240, 216, truecolor), term_color(200, 229, 192, truecolor)),
            band_deleted: (term_color(229, 231, 236, truecolor), term_color(212, 215, 223, truecolor)),
            band_conflict: (term_color(250, 223, 224, truecolor), term_color(245, 200, 202, truecolor)),
            emph_modified: (term_color(176, 208, 242, truecolor), term_color(152, 192, 236, truecolor)),
            emph_added: (term_color(185, 220, 172, truecolor), term_color(163, 206, 148, truecolor)),
            emph_deleted: (term_color(203, 207, 217, truecolor), term_color(186, 191, 204, truecolor)),
            emph_conflict: (term_color(240, 178, 181, truecolor), term_color(233, 154, 158, truecolor)),
        }
    }

    /// The band background of a change type (blue modified, green added,
    /// grey deleted, red conflict; the current chunk's is deeper); none for
    /// unchanged lines.
    pub fn band_bg(&self, change: ChangeType, current: bool) -> (c: Option<TermColor>)
        ensures
            c == match change {
                ChangeType::Unchanged => None,
                ChangeType::Modified => Some(pick(self.band_modified, current)),
                ChangeType::Added => Some(pick(self.band_added, current)),
                ChangeType::Deleted => Some(pick(self.band_deleted, current)),
                ChangeType::Conflict => Some(pick(self.band_conflict, current)),
            },
    {
        let pair = match change {
            ChangeType::Unchanged => return None,
            ChangeType::Modified => self.band_modified,
            ChangeType::Added => self.band_added,
            ChangeType::Deleted => self.band_deleted,
            ChangeType::Conflict => self.band_conflict,
        };
        Some(if current { pair.1 } else { pair.0 })
    }

    /// The background of emphasised words (two steps brighter than the band,
    /// same hue); unchanged lines use the modification colour.
    pub fn emph_bg(&self, change: ChangeType, current: bool) -> (c: TermColor)
        ensures
            c == match change {
                ChangeType::Added => pick(self.emph_added, current),
                ChangeType::Deleted => pick(self.emph_deleted, current),
                ChangeType::Conflict => pick(self.emph_conflict, current),
                _ => pick(self.emph_modified, current),
            },
    {
        let pair = match change {
            ChangeType::Added => self.emph_added,
            ChangeType::Deleted => self.emph_deleted,
            ChangeType::Conflict => self.emph_conflict,
            _ => self.emph_modified,
        };
        if current { pair.1 } else { pair.0 }
    }

    /// The accent of a change type (gutter symbols; same hue as the band).
    pub fn accent(&self, change: ChangeType) -> (c: TermColor)
        ensures
            c == match change {
                ChangeType::Modified => self.blue,
                ChangeType::Added => self.green,
                ChangeType::Conflict => self.red,
                _ => self.fg_dim,
            },
    {
        match change {
            ChangeType::Modified => self.blue,
            ChangeType::Added => self.green,
            ChangeType::Conflict => self.red,
            _ => self.fg_dim,
        }
    }
}

/// The normal or the current colour of a pair.
pub open spec fn pick(pair: (TermColor, TermColor), current: bool) -> TermColor {
    if current {
        pair.1
    } else {
        pair.0
    }
}

/// The band colour of a change type (see `Theme::band_bg`).
pub open spec fn band_spec(t: Theme, change: ChangeType, current: bool) -> Option<TermColor> {
    match change {
        ChangeType::Unchanged => None,
        ChangeType::Modified => Some(pick(t.band_modified, current)),
        ChangeType::Added => Some(pick(t.band_added, current)),
        ChangeType::Deleted => Some(pick(t.band_deleted, current)),
        ChangeType::Conflict => Some(pick(t.band_conflict, current)),
    }
}

/// The accent of a change type (see `Theme::accent`).
pub open spec fn accent_spec(t: Theme, change: ChangeType) -> TermColor {
    match change {
        ChangeType::Modified => t.blue,
        ChangeType::Added => t.green,
        ChangeType::Conflict => t.red,
        _ => t.fg_dim,
    }
}

} // verus!
