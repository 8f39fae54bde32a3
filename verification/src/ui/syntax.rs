//! Syntax colours of the panes: the syntax is picked by the file's
//! extension (none for plain text and for huge files), syntect reads each
//! line into tokens with the Maple colours, and the tokens become byte
//! ranges of the line with their colours; tokens in the theme's default
//! colour keep the terminal's own.

use vstd::prelude::*;

use syntect::easy::HighlightLines;
use syntect::highlighting::ThemeSet;
use syntect::parsing::SyntaxSet;

use crate::app::{FileMerge, file_lines};
use crate::merge::MergeChunk;
use crate::text::{append_lines, chars_of, push_char, strings_view};
use crate::ui::panes::{char_len_utf8, utf8_len};
use crate::ui::theme::{TermColor, term_color, term_color_spec};

verus! {

/// Files whose three panes hold more lines than this get no syntax colours.
pub const SYNTAX_MAX_LINES: usize = 10000;

/// A token of a line: its colour and its length in bytes.
pub open spec fn tokens_view(v: Seq<Vec<(u8, u8, u8, usize)>>) -> Seq<Seq<(u8, u8, u8, usize)>> {
    v.map_values(|t: Vec<(u8, u8, u8, usize)>| t@)
}

/// The views of a colour table.
pub open spec fn table_view(v: Seq<(String, (u8, u8, u8))>) -> Seq<(Seq<char>, (u8, u8, u8))> {
    v.map_values(|p: (String, (u8, u8, u8))| (p.0@, p.1))
}

/// What syntect gives for lines of a file with extension `ext` under the
/// colour theme that the `.tmTheme` text `theme` describes: the name of the
/// syntax its default syntax set gives the extension, and the tokens of
/// each line (colour and byte length); none without such a syntax or for a
/// theme text syntect cannot read.
pub uninterp spec fn syntax_tokens(ext: Seq<char>, lines: Seq<Seq<char>>, theme: Seq<char>) -> Option<
    (Seq<char>, Seq<Seq<(u8, u8, u8, usize)>>),
>;

/// syntect: `SyntaxSet::load_defaults_newlines` and
/// `find_syntax_by_extension`, `ThemeSet::load_from_reader` on the theme
/// text, and `HighlightLines::highlight_line` on each line with a newline
/// added. The contract names the result and, as the body maps line to
/// line, gives one token list per line (none for a line syntect cannot read).
#[verifier::external_body]
fn highlight_lines(ext: &str, lines: &Vec<String>, theme: &str) -> (r: Option<
    (String, Vec<Vec<(u8, u8, u8, usize)>>),
>)
    ensures
        match r {
            Some((name, toks)) => syntax_tokens(ext@, strings_view(lines@), theme@) == Some(
                (name@, tokens_view(toks@)),
            ) && toks@.len() == lines@.len(),
            None => syntax_tokens(ext@, strings_view(lines@), theme@) is None,
        },
{
    let set = SyntaxSet::load_defaults_newlines();
    let syntax = set.find_syntax_by_extension(ext)?;
    let theme = ThemeSet::load_from_reader(&mut std::io::Cursor::new(theme.as_bytes())).ok()?;
    let mut h = HighlightLines::new(syntax, &theme);
    let toks = lines.iter().map(|l| h.highlight_line(&(l.clone() + "\n"), &set).map(|v| v.iter().map(|(s, t)| (s.foreground.r, s.foreground.g, s.foreground.b, t.len())).collect()).unwrap_or_default()).collect();
    Some((syntax.name.clone(), toks))
}

/// The hexadecimal digits.
pub open spec fn hex_digits() -> Seq<char> {
    seq!['0', '1', '2', '3', '4', '5', '6', '7', '8', '9', 'a', 'b', 'c', 'd', 'e', 'f']
}

/// `#rrggbb` for a colour.
pub open spec fn color_text(c: (u8, u8, u8)) -> Seq<char> {
    seq![
        '#',
        hex_digits()[(c.0 / 16) as int],
        hex_digits()[(c.0 % 16) as int],
        hex_digits()[(c.1 / 16) as int],
        hex_digits()[(c.1 % 16) as int],
        hex_digits()[(c.2 / 16) as int],
        hex_digits()[(c.2 % 16) as int],
    ]
}

/// The settings of a foreground colour in a `.tmTheme` text.
pub open spec fn fg_text(c: (u8, u8, u8)) -> Seq<char> {
    "<dict><key>foreground</key><string>"@ + color_text(c) + "</string></dict>"@
}

/// The rules of a colour table in a `.tmTheme` text, in order.
pub open spec fn rules_text(t: Seq<(Seq<char>, (u8, u8, u8))>) -> Seq<char>
    decreases t.len(),
{
    if t.len() == 0 {
        Seq::empty()
    } else {
        rules_text(t.drop_last()) + "<dict><key>scope</key><string>"@ + t.last().0 + "</string><key>settings</key>"@
            + fg_text(t.last().1) + "</dict>"@
    }
}

/// The `.tmTheme` (property list) text of a colour table with default foreground `fg`.
pub open spec fn theme_text(t: Seq<(Seq<char>, (u8, u8, u8))>, fg: (u8, u8, u8)) -> Seq<char> {
    "<?xml version=\"1.0\" encoding=\"UTF-8\"?><plist version=\"1.0\"><dict><key>settings</key><array><dict><key>settings</key>"@
        + fg_text(fg) + "</dict>"@ + rules_text(t) + "</array></dict></plist>"@
}

/// `#rrggbb` for a colour.
fn color_string(c: (u8, u8, u8)) -> (s: String)
    ensures
        s@ == color_text(c),
{
    let d = vec!['0', '1', '2', '3', '4', '5', '6', '7', '8', '9', 'a', 'b', 'c', 'd', 'e', 'f'];
    assert(d@ =~= hex_digits());
    let mut s = String::new();
    push_char(&mut s, '#');
    push_char(&mut s, d[(c.0 / 16) as usize]);
    push_char(&mut s, d[(c.0 % 16) as usize]);
    push_char(&mut s, d[(c.1 / 16) as usize]);
    push_char(&mut s, d[(c.1 % 16) as usize]);
    push_char(&mut s, d[(c.2 / 16) as usize]);
    push_char(&mut s, d[(c.2 % 16) as usize]);
    assert(s@ =~= color_text(c));
    s
}

/// Appends the settings of a foreground colour.
fn push_fg(s: &mut String, c: (u8, u8, u8))
    ensures
        final(s)@ == old(s)@ + fg_text(c),
{
    s.append("<dict><key>foreground</key><string>");
    let t = color_string(c);
    s.append(t.as_str());
    s.append("</string></dict>");
    assert(final(s)@ =~= old(s)@ + fg_text(c));
}

/// The `.tmTheme` text of a colour table.
pub fn theme_string(t: &Vec<(String, (u8, u8, u8))>, fg: (u8, u8, u8)) -> (s: String)
    ensures
        s@ == theme_text(table_view(t@), fg),
{
    let mut s = String::from_str(
        "<?xml version=\"1.0\" encoding=\"UTF-8\"?><plist version=\"1.0\"><dict><key>settings</key><array><dict><key>settings</key>",
    );
    push_fg(&mut s, fg);
    s.append("</dict>");
    let ghost head = s@;
    let ghost tv = table_view(t@);
    let mut i: usize = 0;
    while i < t.len()
        invariant
            0 <= i <= t@.len(),
            tv == table_view(t@),
            s@ == head + rules_text(tv.take(i as int)),
        decreases t@.len() - i,
    {
        assert(tv.take(i + 1).drop_last() =~= tv.take(i as int));
        assert(tv.take(i + 1).last() == (t@[i as int].0@, t@[i as int].1));
        s.append("<dict><key>scope</key><string>");
        s.append(t[i].0.as_str());
        s.append("</string><key>settings</key>");
        push_fg(&mut s, t[i].1);
        s.append("</dict>");
        assert(s@ =~= head + rules_text(tv.take(i + 1)));
        i = i + 1;
    }
    assert(tv.take(t@.len() as int) =~= tv);
    s.append("</array></dict></plist>");
    assert(s@ =~= theme_text(tv, fg));
    s
}

/// The Maple theme's token colours (dark or light): scope selectors and
/// their foreground.
pub open spec fn maple_spec(light: bool) -> Seq<(Seq<char>, (u8, u8, u8))> {
    let c = |d: (u8, u8, u8), l: (u8, u8, u8)| if light { l } else { d };
    seq![
        ("comment, punctuation.definition.comment"@, c((0x99, 0x99, 0x99), (0x80, 0x80, 0x80))),
        ("punctuation, meta.brace, keyword.operator"@, c((0xb8, 0xd7, 0xf9), (0x71, 0xa3, 0xa8))),
        ("keyword, storage, support.type.builtin"@, c((0xd2, 0xcc, 0xff), (0x72, 0x62, 0x93))),
        ("constant, support.constant, variable.language"@, c((0xf0, 0xc0, 0xa8), (0xc3, 0x75, 0x22))),
        ("constant.numeric"@, c((0xd5, 0xf2, 0x88), (0x73, 0x99, 0x00))),
        ("constant.language"@, c((0xd2, 0xcc, 0xff), (0x72, 0x62, 0x93))),
        ("string"@, c((0xa4, 0xdf, 0xae), (0x47, 0x8f, 0x14))),
        ("constant.character.escape"@, c((0x8f, 0xc7, 0xff), (0x05, 0x85, 0xa8))),
        (
            "entity.name.function, support.function, variable.function, support.macro, entity.name.macro"@,
            c((0x8f, 0xc7, 0xff), (0x05, 0x85, 0xa8)),
        ),
        (
            "entity.name.type, entity.name.class, entity.name.struct, entity.name.enum, entity.name.trait, entity.other.inherited-class, support.class, support.type"@,
            c((0xf0, 0xc0, 0xa8), (0xc3, 0x75, 0x22)),
        ),
        ("variable, variable.parameter"@, c((0xee, 0xcf, 0xa0), (0xaa, 0x83, 0x0e))),
        (
            "variable.other.member, meta.property-name, support.type.property-name"@,
            c((0xde, 0xd6, 0xcf), (0x8d, 0x89, 0x49)),
        ),
        ("entity.name.tag"@, c((0xed, 0xab, 0xab), (0xbd, 0x51, 0x51))),
        ("entity.other.attribute-name"@, c((0xee, 0xcf, 0xa0), (0xaa, 0x83, 0x0e))),
        (
            "entity.name.namespace, keyword.control.import, keyword.other.import, keyword.other.package"@,
            c((0xe3, 0xcb, 0xeb), (0xa6, 0x59, 0x73)),
        ),
        ("markup.heading, entity.name.section"@, c((0xd2, 0xcc, 0xff), (0x72, 0x62, 0x93))),
        ("markup.quote"@, c((0xa1, 0xe8, 0xe5), (0x12, 0x7d, 0x52))),
        ("markup.raw, markup.inline.raw"@, c((0xed, 0xab, 0xab), (0xbd, 0x51, 0x51))),
        ("markup.inserted"@, c((0xa4, 0xdf, 0xae), (0x47, 0x8f, 0x14))),
        ("markup.deleted"@, c((0xed, 0xab, 0xab), (0xbd, 0x51, 0x51))),
        ("markup.bold, markup.italic"@, c((0xf0, 0xc0, 0xa8), (0xc3, 0x75, 0x22))),
        ("markup.underline.link, string.other.link"@, c((0x8f, 0xc7, 0xff), (0x05, 0x85, 0xa8))),
    ]
}

/// The default foreground of the Maple theme (dark `#cbd5e1`, light `#475569`).
pub open spec fn maple_fg(light: bool) -> (u8, u8, u8) {
    if light {
        (0x47, 0x55, 0x69)
    } else {
        (0xcb, 0xd5, 0xe1)
    }
}

/// The Maple theme's token colours.
pub fn maple(light: bool) -> (t: Vec<(String, (u8, u8, u8))>)
    ensures
        table_view(t@) == maple_spec(light),
{
    let c = |d: (u8, u8, u8), l: (u8, u8, u8)| -> (r: (u8, u8, u8))
        ensures
            r == if light {
                l
            } else {
                d
            },
        {
            if light {
                l
            } else {
                d
            }
        };
    let t = vec![
        (String::from_str("comment, punctuation.definition.comment"), c((0x99, 0x99, 0x99), (0x80, 0x80, 0x80))),
        (String::from_str("punctuation, meta.brace, keyword.operator"), c((0xb8, 0xd7, 0xf9), (0x71, 0xa3, 0xa8))),
        (String::from_str("keyword, storage, support.type.builtin"), c((0xd2, 0xcc, 0xff), (0x72, 0x62, 0x93))),
        (String::from_str("constant, support.constant, variable.language"), c((0xf0, 0xc0, 0xa8), (0xc3, 0x75, 0x22))),
        (String::from_str("constant.numeric"), c((0xd5, 0xf2, 0x88), (0x73, 0x99, 0x00))),
        (String::from_str("constant.language"), c((0xd2, 0xcc, 0xff), (0x72, 0x62, 0x93))),
        (String::from_str("string"), c((0xa4, 0xdf, 0xae), (0x47, 0x8f, 0x14))),
        (String::from_str("constant.character.escape"), c((0x8f, 0xc7, 0xff), (0x05, 0x85, 0xa8))),
        (
            String::from_str(
                "entity.name.function, support.function, variable.function, support.macro, entity.name.macro",
            ),
            c((0x8f, 0xc7, 0xff), (0x05, 0x85, 0xa8)),
        ),
        (
            String::from_str(
                "entity.name.type, entity.name.class, entity.name.struct, entity.name.enum, entity.name.trait, entity.other.inherited-class, support.class, support.type",
            ),
            c((0xf0, 0xc0, 0xa8), (0xc3, 0x75, 0x22)),
        ),
        (String::from_str("variable, variable.parameter"), c((0xee, 0xcf, 0xa0), (0xaa, 0x83, 0x0e))),
        (
            String::from_str("variable.other.member, meta.property-name, support.type.property-name"),
            c((0xde, 0xd6, 0xcf), (0x8d, 0x89, 0x49)),
        ),
        (String::from_str("entity.name.tag"), c((0xed, 0xab, 0xab), (0xbd, 0x51, 0x51))),
        (String::from_str("entity.other.attribute-name"), c((0xee, 0xcf, 0xa0), (0xaa, 0x83, 0x0e))),
        (
            String::from_str(
                "entity.name.namespace, keyword.control.import, keyword.other.import, keyword.other.package",
            ),
            c((0xe3, 0xcb, 0xeb), (0xa6, 0x59, 0x73)),
        ),
        (String::from_str("markup.heading, entity.name.section"), c((0xd2, 0xcc, 0xff), (0x72, 0x62, 0x93))),
        (String::from_str("markup.quote"), c((0xa1, 0xe8, 0xe5), (0x12, 0x7d, 0x52))),
        (String::from_str("markup.raw, markup.inline.raw"), c((0xed, 0xab, 0xab), (0xbd, 0x51, 0x51))),
        (String::from_str("markup.inserted"), c((0xa4, 0xdf, 0xae), (0x47, 0x8f, 0x14))),
        (String::from_str("markup.deleted"), c((0xed, 0xab, 0xab), (0xbd, 0x51, 0x51))),
        (String::from_str("markup.bold, markup.italic"), c((0xf0, 0xc0, 0xa8), (0xc3, 0x75, 0x22))),
        (String::from_str("markup.underline.link, string.other.link"), c((0x8f, 0xc7, 0xff), (0x05, 0x85, 0xa8))),
    ];
    assert(table_view(t@) =~= maple_spec(light));
    t
}

/// The extension of a path as git writes it (`/` separated): what follows
/// the last `.` of the last component, unless that `.` starts the name.
pub open spec fn path_ext(path: Seq<char>) -> Option<Seq<char>> {
    let slash = last_index(path, '/');
    let name = path.subrange(slash + 1, path.len() as int);
    let dot = last_index(name, '.');
    if dot <= 0 || name == ".."@ {
        None
    } else {
        Some(name.subrange(dot + 1, name.len() as int))
    }
}

/// Index of the last `c` in `s`, or -1.
pub open spec fn last_index(s: Seq<char>, c: char) -> int
    decreases s.len(),
{
    if s.len() == 0 {
        -1
    } else if s.last() == c {
        s.len() - 1
    } else {
        last_index(s.drop_last(), c)
    }
}

/// The last index lies inside the text, or is -1.
proof fn lemma_last_index(s: Seq<char>, c: char)
    ensures
        -1 <= last_index(s, c) < s.len(),
    decreases s.len(),
{
    if s.len() > 0 && s.last() != c {
        lemma_last_index(s.drop_last(), c);
    }
}

/// Index of the last `c` in `s[..n]`, or -1.
fn last_index_of(s: &Vec<char>, c: char, n: usize) -> (r: isize)
    requires
        n <= s@.len(),
        s@.len() <= isize::MAX,
    ensures
        r == last_index(s@.take(n as int), c),
        -1 <= r < n,
{
    proof {
        lemma_last_index(s@.take(n as int), c);
    }
    let mut k = n;
    while k > 0
        invariant
            k <= n <= s@.len(),
            s@.len() <= isize::MAX,
            last_index(s@.take(n as int), c) == last_index(s@.take(k as int), c),
        decreases k,
    {
        assert(s@.take(k as int).drop_last() =~= s@.take(k - 1));
        if s[k - 1] == c {
            return (k - 1) as isize;
        }
        k = k - 1;
    }
    -1
}

/// The extension of a path.
fn extension_of(path: &str) -> (r: Option<String>)
    requires
        path@.len() <= isize::MAX,
    ensures
        match r {
            Some(e) => path_ext(path@) == Some(e@),
            None => path_ext(path@) is None,
        },
{
    let p = chars_of(path);
    assert(p@.take(p@.len() as int) =~= p@);
    let slash = last_index_of(&p, '/', p.len());
    let start = (slash + 1) as usize;
    let name = crate::text::sub_chars(&p, start, p.len());
    assert(name@.take(name@.len() as int) =~= name@);
    let dot = last_index_of(&name, '.', name.len());
    let dotdot = name.len() == 2 && name[0] == '.' && name[1] == '.';
    proof {
        if name@ == ".."@ {
            reveal_strlit("..");
        }
        if dotdot {
            reveal_strlit("..");
            assert(name@ =~= ".."@);
        }
    }
    if dot <= 0 || dotdot {
        return None;
    }
    let e = crate::text::string_of_range(&name, (dot + 1) as usize, name.len());
    Some(e)
}

/// The coloured ranges of a line `len` bytes long from tokens starting at
/// byte `pos`: each token's bytes, cut at the line's end (the tokens also
/// hold the newline), unless the token has the default colour `fg`.
pub open spec fn spans_from(len: int, toks: Seq<(u8, u8, u8, usize)>, pos: int, fg: (u8, u8, u8), tc: bool) -> Seq<
    (TermColor, (usize, usize)),
>
    decreases toks.len(),
{
    if toks.len() == 0 || pos + toks[0].3 > usize::MAX {
        Seq::empty()
    } else {
        let t = toks[0];
        let end = pos + t.3;
        let clipped = if end <= len {
            end
        } else {
            len
        };
        let rest = spans_from(len, toks.drop_first(), end, fg, tc);
        if clipped > pos && (t.0, t.1, t.2) != fg {
            seq![(term_color_spec(t.0, t.1, t.2, tc), (pos as usize, clipped as usize))] + rest
        } else {
            rest
        }
    }
}

/// The coloured ranges of a line from its tokens.
pub fn line_spans(len: usize, toks: &Vec<(u8, u8, u8, usize)>, fg: (u8, u8, u8), tc: bool) -> (r: Vec<
    (TermColor, (usize, usize)),
>)
    ensures
        r@ == spans_from(len as int, toks@, 0, fg, tc),
{
    let mut out: Vec<(TermColor, (usize, usize))> = Vec::new();
    let mut pos: usize = 0;
    let mut i: usize = 0;
    assert(toks@.skip(0) =~= toks@);
    assert(out@ + spans_from(len as int, toks@, 0, fg, tc) =~= spans_from(len as int, toks@, 0, fg, tc));
    while i < toks.len()
        invariant
            0 <= i <= toks@.len(),
            out@ + spans_from(len as int, toks@.skip(i as int), pos as int, fg, tc) == spans_from(
                len as int,
                toks@,
                0,
                fg,
                tc,
            ),
        decreases toks@.len() - i,
    {
        let ghost rest = toks@.skip(i as int);
        assert(rest.drop_first() =~= toks@.skip(i + 1));
        assert(rest[0] == toks@[i as int]);
        let (r, g, b, n) = toks[i];
        if n > usize::MAX - pos {
            assert(spans_from(len as int, rest, pos as int, fg, tc) =~= Seq::empty());
            assert(out@ + Seq::<(TermColor, (usize, usize))>::empty() =~= out@);
            return out;
        }
        let end = pos + n;
        let clipped = if end <= len {
            end
        } else {
            len
        };
        let ghost before = out@;
        if clipped > pos && !(r == fg.0 && g == fg.1 && b == fg.2) {
            let col = term_color(r, g, b, tc);
            out.push((col, (pos, clipped)));
            assert(before.push((col, (pos, clipped))) + spans_from(len as int, toks@.skip(i + 1), end as int, fg, tc)
                =~= before + (seq![(col, (pos, clipped))] + spans_from(len as int, toks@.skip(i + 1), end as int, fg, tc)));
        }
        pos = end;
        i = i + 1;
    }
    assert(toks@.skip(toks@.len() as int) =~= Seq::<(u8, u8, u8, usize)>::empty());
    assert(out@ + Seq::<(TermColor, (usize, usize))>::empty() =~= out@);
    out
}

/// Bytes of a line in UTF-8.
fn byte_len(s: &String) -> (n: usize)
    requires
        4 * s@.len() <= usize::MAX,
    ensures
        n == utf8_len(s@),
{
    let c = chars_of(s.as_str());
    let mut n: usize = 0;
    let mut i: usize = 0;
    while i < c.len()
        invariant
            0 <= i <= c@.len(),
            c@ == s@,
            4 * s@.len() <= usize::MAX,
            n == utf8_len(c@.take(i as int)),
            n <= 4 * i,
        decreases c@.len() - i,
    {
        assert(c@.take(i + 1).drop_last() =~= c@.take(i as int));
        n = n + char_len_utf8(c[i]);
        i = i + 1;
    }
    assert(c@.take(c@.len() as int) =~= c@);
    n
}

/// Whether every line fits the byte arithmetic.
pub open spec fn lines_fit(lines: Seq<Seq<char>>) -> bool {
    forall|i: int| 0 <= i < lines.len() ==> 4 * (#[trigger] lines[i]).len() <= usize::MAX
}

/// The syntax colours of a pane's lines for a file at `path`: none for a
/// path or a line too long for the byte arithmetic, without an extension, without a syntax for it, or for plain text; else each
/// line's coloured ranges.
pub open spec fn pane_spec(path: Seq<char>, lines: Seq<Seq<char>>, light: bool, tc: bool) -> Option<
    Seq<Seq<(TermColor, (usize, usize))>>,
> {
    if path.len() > isize::MAX || !lines_fit(lines) {
        None
    } else {
        pane_spec_of(path, lines, light, tc)
    }
}

/// `pane_spec` for a path and lines within the arithmetic's bounds.
pub open spec fn pane_spec_of(path: Seq<char>, lines: Seq<Seq<char>>, light: bool, tc: bool) -> Option<
    Seq<Seq<(TermColor, (usize, usize))>>,
> {
    match path_ext(path) {
        None => None,
        Some(ext) => match syntax_tokens(ext, lines, theme_text(maple_spec(light), maple_fg(light))) {
            None => None,
            Some((name, toks)) => if name == "Plain Text"@ {
                None
            } else {
                Some(
                    Seq::new(
                        lines.len(),
                        |i: int| spans_from(utf8_len(lines[i]), toks[i], 0, maple_fg(light), tc),
                    ),
                )
            },
        },
    }
}

/// Whether every line fits the byte arithmetic.
fn all_fit(lines: &Vec<String>) -> (r: bool)
    ensures
        r == lines_fit(strings_view(lines@)),
{
    let ghost lv = strings_view(lines@);
    let mut i: usize = 0;
    while i < lines.len()
        invariant
            0 <= i <= lines@.len(),
            lv == strings_view(lines@),
            forall|k: int| 0 <= k < i ==> 4 * (#[trigger] lv[k]).len() <= usize::MAX,
        decreases lines@.len() - i,
    {
        let c = chars_of(lines[i].as_str());
        assert(lv[i as int] == lines@[i as int]@);
        if c.len() > usize::MAX / 4 {
            return false;
        }
        i = i + 1;
    }
    true
}

/// The views of per-line colours.
pub open spec fn colors_view(v: Seq<Vec<(TermColor, (usize, usize))>>) -> Seq<Seq<(TermColor, (usize, usize))>> {
    v.map_values(|l: Vec<(TermColor, (usize, usize))>| l@)
}

/// The syntax colours of a pane's lines for a file at `path`.
pub fn pane_colors(path: &str, lines: &Vec<String>, light: bool, tc: bool) -> (r: Option<
    Vec<Vec<(TermColor, (usize, usize))>>,
>)
    ensures
        match r {
            Some(v) => pane_spec(path@, strings_view(lines@), light, tc) == Some(colors_view(v@)),
            None => pane_spec(path@, strings_view(lines@), light, tc) is None,
        },
{
    let pc = chars_of(path);
    if pc.len() > isize::MAX as usize || !all_fit(lines) {
        return None;
    }
    let ext = match extension_of(path) {
        Some(e) => e,
        None => return None,
    };
    let table = maple(light);
    let fg: (u8, u8, u8) = if light {
        (0x47, 0x55, 0x69)
    } else {
        (0xcb, 0xd5, 0xe1)
    };
    let theme = theme_string(&table, fg);
    let (name, toks) = match highlight_lines(ext.as_str(), lines, theme.as_str()) {
        Some(x) => x,
        None => return None,
    };
    proof {
        reveal_strlit("Plain Text");
    }
    let plain = String::from_str("Plain Text");
    if name == plain {
        return None;
    }
    let ghost lv = strings_view(lines@);
    let mut out: Vec<Vec<(TermColor, (usize, usize))>> = Vec::new();
    let mut i: usize = 0;
    while i < lines.len()
        invariant
            0 <= i <= lines@.len(),
            lv == strings_view(lines@),
            lines_fit(lv),
            toks@.len() == lines@.len(),
            fg == maple_fg(light),
            out@.len() == i,
            forall|k: int|
                0 <= k < i ==> (#[trigger] out@[k])@ == spans_from(utf8_len(lv[k]), toks@[k]@, 0, fg, tc),
        decreases lines@.len() - i,
    {
        assert(lv[i as int] == lines@[i as int]@);
        let n = byte_len(&lines[i]);
        let row = line_spans(n, &toks[i], fg, tc);
        out.push(row);
        i = i + 1;
    }
    proof {
        assert(name@ != "Plain Text"@);
        let want = Seq::new(lv.len(), |k: int| spans_from(utf8_len(lv[k]), tokens_view(toks@)[k], 0, fg, tc));
        assert(colors_view(out@) =~= want);
    }
    Some(out)
}

/// The lines of one side of the chunks, one chunk after the other.
pub open spec fn side_lines(cs: Seq<MergeChunk>, n: int, theirs: bool) -> Seq<Seq<char>>
    decreases n,
{
    if n <= 0 {
        Seq::empty()
    } else {
        side_lines(cs, n - 1, theirs) + if theirs {
            cs[n - 1]@.theirs
        } else {
            cs[n - 1]@.ours
        }
    }
}

/// Lines the three panes of the chunks hold together.
pub open spec fn syntax_total(cs: Seq<MergeChunk>, n: int) -> int
    decreases n,
{
    if n <= 0 {
        0
    } else {
        syntax_total(cs, n - 1) + cs[n - 1].ours@.len() + cs[n - 1].theirs@.len() + cs[n - 1].base@.len()
    }
}

/// The total never shrinks as chunks are added.
proof fn lemma_total_grows(cs: Seq<MergeChunk>, i: int, n: int)
    requires
        0 <= i <= n,
    ensures
        syntax_total(cs, i) <= syntax_total(cs, n),
    decreases n - i,
{
    if i < n {
        lemma_total_grows(cs, i, n - 1);
    }
}

/// Whether a file gets syntax colours by its size: its three panes hold at
/// most `SYNTAX_MAX_LINES` lines together.
pub fn syntax_enabled(merge: &FileMerge) -> (r: bool)
    ensures
        r == (syntax_total(merge.chunks@, merge.chunks@.len() as int) <= SYNTAX_MAX_LINES),
{
    let n = merge.chunks.len();
    let mut total: usize = 0;
    let mut i: usize = 0;
    while i < n
        invariant
            n == merge.chunks@.len(),
            0 <= i <= n,
            total == syntax_total(merge.chunks@, i as int),
            total <= SYNTAX_MAX_LINES,
        decreases n - i,
    {
        let c = &merge.chunks[i];
        let (a, b, d) = (c.ours.len(), c.theirs.len(), c.base.len());
        if a > SYNTAX_MAX_LINES || b > SYNTAX_MAX_LINES || d > SYNTAX_MAX_LINES || total + a + b + d > SYNTAX_MAX_LINES {
            proof {
                lemma_total_grows(merge.chunks@, i + 1, n as int);
            }
            return false;
        }
        total = total + a + b + d;
        i = i + 1;
    }
    true
}

/// The lines of one side, one chunk after the other.
pub fn side_lines_of(merge: &FileMerge, theirs: bool) -> (r: Vec<String>)
    ensures
        strings_view(r@) == side_lines(merge.chunks@, merge.chunks@.len() as int, theirs),
{
    let mut out: Vec<String> = Vec::new();
    let mut i: usize = 0;
    while i < merge.chunks.len()
        invariant
            0 <= i <= merge.chunks@.len(),
            strings_view(out@) == side_lines(merge.chunks@, i as int, theirs),
        decreases merge.chunks@.len() - i,
    {
        let c = &merge.chunks[i];
        if theirs {
            append_lines(&mut out, &c.theirs);
        } else {
            append_lines(&mut out, &c.ours);
        }
        i = i + 1;
    }
    out
}

/// The result pane's lines and where each chunk's lines start among them.
pub fn result_lines(merge: &FileMerge) -> (r: (Vec<String>, Vec<usize>))
    requires
        merge.wf(),
    ensures
        strings_view(r.0@) == file_lines(merge.chunks@, merge.states@, merge.chunks@.len() as int),
        r.1@.len() == merge.chunks@.len(),
        forall|i: int|
            0 <= i < r.1@.len() ==> #[trigger] r.1@[i] == file_lines(merge.chunks@, merge.states@, i).len(),
{
    let mut lines: Vec<String> = Vec::new();
    let mut starts: Vec<usize> = Vec::new();
    let mut i: usize = 0;
    while i < merge.chunks.len()
        invariant
            merge.wf(),
            0 <= i <= merge.chunks@.len(),
            strings_view(lines@) == file_lines(merge.chunks@, merge.states@, i as int),
            starts@.len() == i,
            forall|k: int| 0 <= k < i ==> #[trigger] starts@[k] == file_lines(merge.chunks@, merge.states@, k).len(),
        decreases merge.chunks@.len() - i,
    {
        starts.push(lines.len());
        let part = merge.current_content(i);
        append_lines(&mut lines, &part);
        i = i + 1;
    }
    (lines, starts)
}

/// The views of optional per-line colours.
pub open spec fn opt_colors(v: Option<Vec<Vec<(TermColor, (usize, usize))>>>) -> Option<
    Seq<Seq<(TermColor, (usize, usize))>>,
> {
    match v {
        Some(x) => Some(colors_view(x@)),
        None => None,
    }
}

/// The syntax colours of the result pane (none for a file too large for
/// syntax colours), and where each chunk's lines start among its lines.
pub fn result_colors(merge: &FileMerge, light: bool, tc: bool) -> (r: (
    Option<Vec<Vec<(TermColor, (usize, usize))>>>,
    Vec<usize>,
))
    requires
        merge.wf(),
    ensures
        opt_colors(r.0) == if syntax_total(merge.chunks@, merge.chunks@.len() as int) <= SYNTAX_MAX_LINES {
            pane_spec(merge.path@, file_lines(merge.chunks@, merge.states@, merge.chunks@.len() as int), light, tc)
        } else {
            None
        },
        r.1@.len() == merge.chunks@.len(),
        forall|i: int|
            0 <= i < r.1@.len() ==> #[trigger] r.1@[i] == file_lines(merge.chunks@, merge.states@, i).len(),
{
    let (lines, starts) = result_lines(merge);
    if !syntax_enabled(merge) {
        return (None, starts);
    }
    (pane_colors(merge.path.as_str(), &lines, light, tc), starts)
}

/// The syntax colours of a file's panes.
#[derive(Debug)]
pub struct FileColors {
    /// Local pane, by line number - 1
    pub ours: Option<Vec<Vec<(TermColor, (usize, usize))>>>,
    /// Remote pane, by line number - 1
    pub theirs: Option<Vec<Vec<(TermColor, (usize, usize))>>>,
    /// Result pane, by line (see `result_starts`)
    pub result: Option<Vec<Vec<(TermColor, (usize, usize))>>>,
    /// Where each chunk's lines start among the result pane's lines
    pub result_starts: Vec<usize>,
}

/// The syntax colours of the three panes of a file: none at all for a file
/// too large; else each pane's lines coloured as `pane_spec` says.
pub fn file_colors(merge: &FileMerge, light: bool, tc: bool) -> (f: FileColors)
    requires
        merge.wf(),
    ensures
        ({
            let on = syntax_total(merge.chunks@, merge.chunks@.len() as int) <= SYNTAX_MAX_LINES;
            let n = merge.chunks@.len() as int;
            &&& opt_colors(f.ours) == if on {
                pane_spec(merge.path@, side_lines(merge.chunks@, n, false), light, tc)
            } else {
                None
            }
            &&& opt_colors(f.theirs) == if on {
                pane_spec(merge.path@, side_lines(merge.chunks@, n, true), light, tc)
            } else {
                None
            }
            &&& opt_colors(f.result) == if on {
                pane_spec(merge.path@, file_lines(merge.chunks@, merge.states@, n), light, tc)
            } else {
                None
            }
        }),
        f.result_starts@.len() == merge.chunks@.len(),
        forall|i: int|
            0 <= i < f.result_starts@.len() ==> #[trigger] f.result_starts@[i] == file_lines(
                merge.chunks@,
                merge.states@,
                i,
            ).len(),
{
    let (result, result_starts) = result_colors(merge, light, tc);
    if !syntax_enabled(merge) {
        return FileColors { ours: None, theirs: None, result, result_starts };
    }
    let ours_lines = side_lines_of(merge, false);
    let theirs_lines = side_lines_of(merge, true);
    let ours = pane_colors(merge.path.as_str(), &ours_lines, light, tc);
    let theirs = pane_colors(merge.path.as_str(), &theirs_lines, light, tc);
    FileColors { ours, theirs, result, result_starts }
}

} // verus!
