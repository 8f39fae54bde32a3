//! User configuration: its model, colour values and where the file lives.
//!
//! The file is `$XDG_CONFIG_HOME/git-pincer/config.toml`, falling back to
//! `~/.config/git-pincer/config.toml`. It only sets behaviour: theme, key
//! bindings and defaults of command-line options.

use vstd::prelude::*;

use crate::cli::{LangArg, ThemeArg};

verus! {

/// The whole configuration file.
#[derive(Debug, Clone)]
pub struct Config {
    /// `[ui]`: defaults of the global options
    pub ui: UiSection,
    /// `[keys]`: key overrides (action name, key description)
    pub keys: Vec<(String, String)>,
    /// `[theme.dark]` / `[theme.light]`: colour overrides
    pub theme: ThemeSection,
}

/// The `[ui]` section; the command line takes precedence over it.
#[derive(Debug, Clone)]
pub struct UiSection {
    /// Theme (auto | dark | light)
    pub theme: Option<ThemeArg>,
    /// Interface language (auto | zh | en)
    pub lang: Option<LangArg>,
    /// Echo executed git commands
    pub verbose: Option<bool>,
    /// Editor command for editing a chunk, arguments allowed (such as "code --wait")
    pub editor: Option<String>,
}

/// The `[theme]` section: colour overrides of both themes (name, value).
#[derive(Debug, Clone)]
pub struct ThemeSection {
    /// Dark theme overrides
    pub dark: Vec<(String, ColorValue)>,
    /// Light theme overrides
    pub light: Vec<(String, ColorValue)>,
}

/// A colour value: one `"#RRGGBB"`, or a `["#normal", "#selected"]` pair.
#[derive(Debug, Clone)]
pub enum ColorValue {
    /// One foreground or background colour
    Single(String),
    /// (normal, selected)
    Pair([String; 2]),
}

impl Config {
    /// The configuration of a missing or empty file.
    pub fn empty() -> (c: Config)
        ensures
            c.ui.theme is None,
            c.ui.lang is None,
            c.ui.verbose is None,
            c.ui.editor is None,
            c.keys@.len() == 0,
            c.theme.dark@.len() == 0,
            c.theme.light@.len() == 0,
    {
        Config {
            ui: UiSection { theme: None, lang: None, verbose: None, editor: None },
            keys: Vec::new(),
            theme: ThemeSection { dark: Vec::new(), light: Vec::new() },
        }
    }
}

/// Value of a hexadecimal digit byte.
pub open spec fn hex_digit(b: u8) -> Option<u8> {
    if 0x30 <= b <= 0x39 {
        Some((b - 0x30) as u8)
    } else if 0x61 <= b <= 0x66 {
        Some((b - 0x61 + 10) as u8)
    } else if 0x41 <= b <= 0x46 {
        Some((b - 0x41 + 10) as u8)
    } else {
        None
    }
}

/// Two hexadecimal digits read as one byte.
pub open spec fn hex_pair(b0: u8, b1: u8) -> Option<u8> {
    match (hex_digit(b0), hex_digit(b1)) {
        (Some(x), Some(y)) => Some((x * 16 + y) as u8),
        _ => None,
    }
}

/// The colour `#RRGGBB` names, over the UTF-8 bytes of the value: `#`
/// followed by exactly six hexadecimal digits (either case), two for each
/// of red, green and blue; anything else names none.
pub open spec fn parse_hex_spec(b: Seq<u8>) -> Option<(u8, u8, u8)> {
    if b.len() != 7 || b[0] != 0x23 {
        None
    } else {
        match (hex_pair(b[1], b[2]), hex_pair(b[3], b[4]), hex_pair(b[5], b[6])) {
            (Some(r), Some(g), Some(bl)) => Some((r, g, bl)),
            _ => None,
        }
    }
}

/// Value of a hexadecimal digit byte.
fn hex_digit_of(b: u8) -> (d: Option<u8>)
    ensures
        d == hex_digit(b),
{
    if 0x30 <= b && b <= 0x39 {
        Some(b - 0x30)
    } else if 0x61 <= b && b <= 0x66 {
        Some(b - 0x61 + 10)
    } else if 0x41 <= b && b <= 0x46 {
        Some(b - 0x41 + 10)
    } else {
        None
    }
}

/// Two hexadecimal digits read as one byte.
fn hex_byte(b0: u8, b1: u8) -> (r: Option<u8>)
    ensures
        r == hex_pair(b0, b1),
{
    match (hex_digit_of(b0), hex_digit_of(b1)) {
        (Some(x), Some(y)) => Some(x * 16 + y),
        _ => None,
    }
}

/// Parses a `#RRGGBB` colour into its red, green and blue bytes.
pub fn parse_hex(value: &str) -> (r: Option<(u8, u8, u8)>)
    ensures
        r == parse_hex_spec(vstd::utf8::encode_utf8(value@)),
{
    let b = value.as_bytes();
    if b.len() != 7 || b[0] != 0x23 {
        return None;
    }
    let r = hex_byte(b[1], b[2]);
    let g = hex_byte(b[3], b[4]);
    let bl = hex_byte(b[5], b[6]);
    match (r, g, bl) {
        (Some(r), Some(g), Some(bl)) => Some((r, g, bl)),
        _ => None,
    }
}

/// `PathBuf::join` with a relative component on Unix: the component after
/// a `/`, which is added unless the base is empty or already ends with one.
pub open spec fn path_join(base: Seq<char>, comp: Seq<char>) -> Seq<char> {
    if base.len() == 0 {
        comp
    } else if base.last() == '/' {
        base + comp
    } else {
        base + seq!['/'] + comp
    }
}

/// Where the configuration file is on Unix: under `$XDG_CONFIG_HOME` when it
/// is set and not empty, else under `~/.config`; nowhere without either.
pub open spec fn unix_path_spec(xdg: Option<Seq<char>>, home: Option<Seq<char>>) -> Option<Seq<char>> {
    let base = match xdg {
        Some(d) if d.len() > 0 => Some(d),
        _ => match home {
            Some(h) => Some(path_join(h, ".config"@)),
            None => None,
        },
    };
    match base {
        Some(b) => Some(path_join(path_join(b, "git-pincer"@), "config.toml"@)),
        None => None,
    }
}

/// Joins a relative component to a path.
fn join_path(base: &String, comp: &str) -> (p: String)
    ensures
        p@ == path_join(base@, comp@),
{
    let chars = crate::text::chars_of(base.as_str());
    let mut p = crate::text::copy_string(base);
    if chars.len() > 0 && chars[chars.len() - 1] != '/' {
        crate::text::push_char(&mut p, '/');
    }
    p.append(comp);
    proof {
        if base@.len() == 0 {
            assert(p@ =~= comp@);
        }
    }
    p
}

/// The Unix location of the configuration file from `$XDG_CONFIG_HOME` and
/// the home directory.
pub fn resolve_unix_path(xdg: Option<String>, home: Option<String>) -> (p: Option<String>)
    ensures
        p.is_some() == unix_path_spec(
            match xdg {
                Some(d) => Some(d@),
                None => None,
            },
            match home {
                Some(h) => Some(h@),
                None => None,
            },
        ).is_some(),
        p.is_some() ==> p->Some_0@ == unix_path_spec(
            match xdg {
                Some(d) => Some(d@),
                None => None,
            },
            match home {
                Some(h) => Some(h@),
                None => None,
            },
        )->Some_0,
{
    let base = match xdg {
        Some(d) if !d.as_str().is_empty() => d,
        _ => match home {
            Some(h) => join_path(&h, ".config"),
            None => return None,
        },
    };
    let dir = join_path(&base, "git-pincer");
    Some(join_path(&dir, "config.toml"))
}

} // verus!
