//! The key bindings of a resolution session: one table that key dispatch,
//! the hint bar and the help overlay all read, so a key never says one
//! thing and does another. The table is the built-in defaults with the
//! `[keys]` overrides of the configuration applied; labels are derived from
//! the actual keys.

use vstd::prelude::*;

use crate::i18n::{I18n, fill, fill_one, tr_f, tr_spec};
use crate::text::{chars_of, chars_view, decimal, decimal_string, is_ws, split_chars, split_on, split_state, trim_bounds, trim_ws};

verus! {

/// What a key can do in a resolution session.
#[derive(Debug, Clone, Copy, PartialEq, Eq, Hash, Structural)]
pub enum Action {
    /// Take the local side
    TakeLocal,
    /// Take the remote side
    TakeRemote,
    /// Ignore the sides of the chunk still pending
    IgnoreChunk,
    /// Undo the chunk's decisions
    UndoChunk,
    /// Undo every decision in the file
    UndoFile,
    /// Edit the chunk in `$EDITOR`
    EditChunk,
    /// Take every non-conflicting change
    ApplyNonConflict,
    /// Next change
    NextChange,
    /// Previous change
    PrevChange,
    /// Next unresolved conflict
    NextConflict,
    /// Previous unresolved conflict
    PrevConflict,
    /// Copy the chunk's result
    CopyChunk,
    /// Copy the whole file's result
    CopyFile,
    /// Copy the chunk's local side
    CopyLocal,
    /// Copy the chunk's remote side
    CopyRemote,
    /// Write the file
    WriteFile,
    /// Next file
    NextFile,
    /// Fold or unfold stable stretches
    ToggleFold,
    /// Leave the session
    Quit,
    /// Show the help overlay
    Help,
}

/// A key, as the session sees it.
#[derive(Debug, Clone, Copy, PartialEq, Eq, Hash, Structural)]
pub enum Key {
    /// A character
    Char(char),
    /// Left arrow
    Left,
    /// Right arrow
    Right,
    /// Up arrow
    Up,
    /// Down arrow
    Down,
    /// Tab
    Tab,
    /// Enter
    Enter,
    /// Escape
    Esc,
    /// Backspace
    Backspace,
    /// Home
    Home,
    /// End
    End,
    /// Page up
    PageUp,
    /// Page down
    PageDown,
    /// Delete
    Delete,
    /// Insert
    Insert,
    /// Function key F1 to F12
    F(u8),
    /// Any other key (never bound)
    Other,
}

/// Modifier keys held with a key.
#[derive(Debug, Clone, Copy, PartialEq, Eq, Hash, Structural)]
pub struct Mods {
    /// Control
    pub control: bool,
    /// Alt
    pub alt: bool,
    /// Shift
    pub shift: bool,
}

/// No modifier.
pub open spec fn no_mods() -> Mods {
    Mods { control: false, alt: false, shift: false }
}

/// The action a configuration name (kebab-case) stands for.
pub open spec fn action_named(n: Seq<char>) -> Option<Action> {
    if n == "take-local"@ {
        Some(Action::TakeLocal)
    } else if n == "take-remote"@ {
        Some(Action::TakeRemote)
    } else if n == "ignore"@ {
        Some(Action::IgnoreChunk)
    } else if n == "undo"@ {
        Some(Action::UndoChunk)
    } else if n == "undo-file"@ {
        Some(Action::UndoFile)
    } else if n == "edit"@ {
        Some(Action::EditChunk)
    } else if n == "apply-all"@ {
        Some(Action::ApplyNonConflict)
    } else if n == "next-change"@ {
        Some(Action::NextChange)
    } else if n == "prev-change"@ {
        Some(Action::PrevChange)
    } else if n == "next-conflict"@ {
        Some(Action::NextConflict)
    } else if n == "prev-conflict"@ {
        Some(Action::PrevConflict)
    } else if n == "copy-chunk"@ {
        Some(Action::CopyChunk)
    } else if n == "copy-file"@ {
        Some(Action::CopyFile)
    } else if n == "copy-local"@ {
        Some(Action::CopyLocal)
    } else if n == "copy-remote"@ {
        Some(Action::CopyRemote)
    } else if n == "write"@ {
        Some(Action::WriteFile)
    } else if n == "next-file"@ {
        Some(Action::NextFile)
    } else if n == "fold"@ {
        Some(Action::ToggleFold)
    } else if n == "quit"@ {
        Some(Action::Quit)
    } else if n == "help"@ {
        Some(Action::Help)
    } else {
        None
    }
}

/// Whether two texts are equal.
fn same(a: &str, b: &str) -> (r: bool)
    ensures
        r == (a@ == b@),
{
    String::from_str(a) == String::from_str(b)
}

/// The action a configuration name stands for.
pub fn action_by_name(n: &str) -> (a: Option<Action>)
    ensures
        a == action_named(n@),
{
    if same(n, "take-local") {
        Some(Action::TakeLocal)
    } else if same(n, "take-remote") {
        Some(Action::TakeRemote)
    } else if same(n, "ignore") {
        Some(Action::IgnoreChunk)
    } else if same(n, "undo") {
        Some(Action::UndoChunk)
    } else if same(n, "undo-file") {
        Some(Action::UndoFile)
    } else if same(n, "edit") {
        Some(Action::EditChunk)
    } else if same(n, "apply-all") {
        Some(Action::ApplyNonConflict)
    } else if same(n, "next-change") {
        Some(Action::NextChange)
    } else if same(n, "prev-change") {
        Some(Action::PrevChange)
    } else if same(n, "next-conflict") {
        Some(Action::NextConflict)
    } else if same(n, "prev-conflict") {
        Some(Action::PrevConflict)
    } else if same(n, "copy-chunk") {
        Some(Action::CopyChunk)
    } else if same(n, "copy-file") {
        Some(Action::CopyFile)
    } else if same(n, "copy-local") {
        Some(Action::CopyLocal)
    } else if same(n, "copy-remote") {
        Some(Action::CopyRemote)
    } else if same(n, "write") {
        Some(Action::WriteFile)
    } else if same(n, "next-file") {
        Some(Action::NextFile)
    } else if same(n, "fold") {
        Some(Action::ToggleFold)
    } else if same(n, "quit") {
        Some(Action::Quit)
    } else if same(n, "help") {
        Some(Action::Help)
    } else {
        None
    }
}

/// The names of all actions, as listed in an error message.
pub open spec fn action_list() -> Seq<char> {
    "take-local, take-remote, ignore, undo, undo-file, edit, apply-all, next-change, prev-change, next-conflict, prev-conflict, copy-chunk, copy-file, copy-local, copy-remote, write, next-file, fold, quit, help"@
}

/// The names of all actions, as listed in an error message.
pub fn action_names() -> (s: String)
    ensures
        s@ == action_list(),
{
    String::from_str(
        "take-local, take-remote, ignore, undo, undo-file, edit, apply-all, next-change, prev-change, next-conflict, prev-conflict, copy-chunk, copy-file, copy-local, copy-remote, write, next-file, fold, quit, help",
    )
}

/// A character in ASCII lower case.
pub open spec fn lower_char(c: char) -> char {
    if 'A' <= c && c <= 'Z' {
        ((c as u32) + 32) as char
    } else {
        c
    }
}

/// A character in ASCII upper case.
pub open spec fn upper_char(c: char) -> char {
    if 'a' <= c && c <= 'z' {
        ((c as u32) - 32) as char
    } else {
        c
    }
}

/// A text in ASCII lower case.
pub open spec fn lower(s: Seq<char>) -> Seq<char> {
    s.map_values(|c: char| lower_char(c))
}

/// A character in ASCII upper case.
fn upper_ascii(c: char) -> (u: char)
    ensures
        u == upper_char(c),
{
    if 'a' <= c && c <= 'z' {
        let b = (c as u32 - 32) as u8;
        b as char
    } else {
        c
    }
}

/// A character in ASCII lower case.
fn lower_ascii(c: char) -> (u: char)
    ensures
        u == lower_char(c),
{
    if 'A' <= c && c <= 'Z' {
        let b = (c as u32 + 32) as u8;
        b as char
    } else {
        c
    }
}

/// A text in ASCII lower case.
fn lower_chars(s: &Vec<char>) -> (out: Vec<char>)
    ensures
        out@ == lower(s@),
{
    let mut out: Vec<char> = Vec::new();
    let mut i: usize = 0;
    while i < s.len()
        invariant
            0 <= i <= s@.len(),
            out@ == lower(s@.take(i as int)),
        decreases s@.len() - i,
    {
        out.push(lower_ascii(s[i]));
        assert(lower(s@.take(i + 1)) =~= lower(s@.take(i as int)).push(lower_char(s@[i as int])));
        i = i + 1;
    }
    assert(s@.take(s@.len() as int) =~= s@);
    out
}

/// Whether the characters spell the text.
fn is_text(s: &Vec<char>, t: &str) -> (r: bool)
    ensures
        r == (s@ == t@),
{
    crate::text::string_of(s) == String::from_str(t)
}

/// The modifiers named by the parts before the key, or None when one is unknown.
pub open spec fn mods_of(parts: Seq<Seq<char>>) -> Option<Mods>
    decreases parts.len(),
{
    if parts.len() == 0 {
        Some(no_mods())
    } else {
        match mods_of(parts.drop_last()) {
            None => None,
            Some(m) => {
                let p = lower(parts.last());
                if p == "ctrl"@ || p == "control"@ {
                    Some(Mods { control: true, alt: m.alt, shift: m.shift })
                } else if p == "alt"@ {
                    Some(Mods { control: m.control, alt: true, shift: m.shift })
                } else if p == "shift"@ {
                    Some(Mods { control: m.control, alt: m.alt, shift: true })
                } else {
                    None
                }
            },
        }
    }
}

/// The key a lower-case name stands for.
pub open spec fn named_key(l: Seq<char>) -> Option<Key> {
    if l == "left"@ {
        Some(Key::Left)
    } else if l == "right"@ {
        Some(Key::Right)
    } else if l == "up"@ {
        Some(Key::Up)
    } else if l == "down"@ {
        Some(Key::Down)
    } else if l == "tab"@ {
        Some(Key::Tab)
    } else if l == "enter"@ || l == "return"@ {
        Some(Key::Enter)
    } else if l == "esc"@ || l == "escape"@ {
        Some(Key::Esc)
    } else if l == "space"@ {
        Some(Key::Char(' '))
    } else if l == "backspace"@ {
        Some(Key::Backspace)
    } else if l == "home"@ {
        Some(Key::Home)
    } else if l == "end"@ {
        Some(Key::End)
    } else if l == "pageup"@ {
        Some(Key::PageUp)
    } else if l == "pagedown"@ {
        Some(Key::PageDown)
    } else if l == "delete"@ || l == "del"@ {
        Some(Key::Delete)
    } else if l == "insert"@ {
        Some(Key::Insert)
    } else {
        None
    }
}

/// Whether a lower-case name has the shape of a function key: `f` and digits.
pub open spec fn fkey_shape(l: Seq<char>) -> bool {
    l.len() >= 2 && l[0] == 'f' && crate::ui::theme::all_digits(l.drop_first())
}

/// The key a name (one part of a description) stands for: a named key in
/// any case, `f1` to `f12`, or a single character as written.
pub open spec fn key_named(name: Seq<char>) -> Option<Key> {
    let l = lower(name);
    match named_key(l) {
        Some(k) => Some(k),
        None => if fkey_shape(l) {
            match crate::ui::theme::parse_u8_spec(l.drop_first()) {
                Some(n) => if 1 <= n <= 12 {
                    Some(Key::F(n))
                } else {
                    None
                },
                None => None,
            }
        } else if name.len() == 1 {
            Some(Key::Char(name[0]))
        } else {
            None
        },
    }
}

/// The parts of a key description, split at `+` and trimmed.
pub open spec fn key_parts(desc: Seq<char>) -> Seq<Seq<char>> {
    split_on(desc, '+').map_values(|p: Seq<char>| trim_ws(p))
}

/// A key description: a single character (case kept), or a named key (any
/// case), after optional `ctrl+`, `alt+` and `shift+` prefixes; `shift+` a
/// character becomes the upper-case character. None when it cannot be read.
pub open spec fn parse_key_spec(desc: Seq<char>) -> Option<(Key, Mods)> {
    let parts = key_parts(desc);
    let name = parts.last();
    if name.len() == 0 {
        None
    } else {
        match (mods_of(parts.drop_last()), key_named(name)) {
            (Some(m), Some(k)) => if m.shift && k is Char {
                Some((Key::Char(upper_char(k->Char_0)), Mods { control: m.control, alt: m.alt, shift: false }))
            } else {
                Some((k, m))
            },
            _ => None,
        }
    }
}

/// The key a lower-case name stands for.
fn named_key_of(l: &Vec<char>) -> (k: Option<Key>)
    ensures
        k == named_key(l@),
{
    if is_text(l, "left") {
        Some(Key::Left)
    } else if is_text(l, "right") {
        Some(Key::Right)
    } else if is_text(l, "up") {
        Some(Key::Up)
    } else if is_text(l, "down") {
        Some(Key::Down)
    } else if is_text(l, "tab") {
        Some(Key::Tab)
    } else if is_text(l, "enter") || is_text(l, "return") {
        Some(Key::Enter)
    } else if is_text(l, "esc") || is_text(l, "escape") {
        Some(Key::Esc)
    } else if is_text(l, "space") {
        Some(Key::Char(' '))
    } else if is_text(l, "backspace") {
        Some(Key::Backspace)
    } else if is_text(l, "home") {
        Some(Key::Home)
    } else if is_text(l, "end") {
        Some(Key::End)
    } else if is_text(l, "pageup") {
        Some(Key::PageUp)
    } else if is_text(l, "pagedown") {
        Some(Key::PageDown)
    } else if is_text(l, "delete") || is_text(l, "del") {
        Some(Key::Delete)
    } else if is_text(l, "insert") {
        Some(Key::Insert)
    } else {
        None
    }
}

/// Whether every character is a decimal digit.
fn digits_only(s: &Vec<char>, from: usize) -> (r: bool)
    requires
        from <= s@.len(),
    ensures
        r == crate::ui::theme::all_digits(s@.skip(from as int)),
{
    let mut i = from;
    while i < s.len()
        invariant
            from <= i <= s@.len(),
            forall|j: int| from <= j < i ==> '0' <= #[trigger] s@[j] <= '9',
        decreases s@.len() - i,
    {
        if s[i] < '0' || s[i] > '9' {
            assert(s@.skip(from as int)[i - from] == s@[i as int]);
            return false;
        }
        i = i + 1;
    }
    assert forall|j: int| 0 <= j < s@.skip(from as int).len() implies '0' <= #[trigger] s@.skip(from as int)[j] <= '9' by {
        assert(s@.skip(from as int)[j] == s@[from + j]);
    }
    true
}

/// The key a name stands for.
fn key_of_name(name: &Vec<char>) -> (k: Option<Key>)
    ensures
        k == key_named(name@),
{
    let l = lower_chars(name);
    if let Some(k) = named_key_of(&l) {
        return Some(k);
    }
    if l.len() >= 2 && l[0] == 'f' && digits_only(&l, 1) {
        let rest = crate::text::sub_chars(&l, 1, l.len());
        assert(rest@ =~= l@.drop_first());
        return match crate::ui::theme::parse_u8(&rest) {
            Some(n) => if 1 <= n && n <= 12 {
                Some(Key::F(n))
            } else {
                None
            },
            None => None,
        };
    }
    proof {
        if l@.len() >= 2 && l@[0] == 'f' {
            assert(l@.drop_first() =~= l@.skip(1));
        }
    }
    if name.len() == 1 {
        Some(Key::Char(name[0]))
    } else {
        None
    }
}

/// Reads a key description.
pub fn parse_key(desc: &str) -> (r: Option<(Key, Mods)>)
    ensures
        r == parse_key_spec(desc@),
{
    let chars = chars_of(desc);
    let raw = split_chars(&chars, '+');
    let mut parts: Vec<Vec<char>> = Vec::new();
    let mut i: usize = 0;
    while i < raw.len()
        invariant
            0 <= i <= raw@.len(),
            chars_view(raw@) == split_on(desc@, '+'),
            chars_view(parts@) == split_on(desc@, '+').take(i as int).map_values(|p: Seq<char>| trim_ws(p)),
        decreases raw@.len() - i,
    {
        let piece = &raw[i];
        let (lo, hi) = trim_bounds(piece, 0, piece.len());
        assert(piece@.subrange(0, piece@.len() as int) =~= piece@);
        let t = crate::text::sub_chars(piece, lo, hi);
        let ghost before = parts@;
        parts.push(t);
        proof {
            assert(chars_view(raw@)[i as int] == piece@);
            assert(chars_view(parts@) =~= split_on(desc@, '+').take(i + 1).map_values(
                |p: Seq<char>| trim_ws(p),
            )) by {
                assert(chars_view(parts@) =~= chars_view(before).push(t@));
            }
        }
        i = i + 1;
    }
    assert(split_on(desc@, '+').take(raw@.len() as int) =~= split_on(desc@, '+'));
    let ghost pv = key_parts(desc@);
    assert(chars_view(parts@) == pv);
    assert(pv.len() >= 1);
    let last = parts.len() - 1;
    let name = &parts[last];
    assert(name@ == pv.last());
    if name.len() == 0 {
        return None;
    }
    let mut mods = Mods { control: false, alt: false, shift: false };
    let mut k: usize = 0;
    while k < last
        invariant
            0 <= k <= last,
            last + 1 == parts@.len(),
            chars_view(parts@) == pv,
            pv == key_parts(desc@),
            mods_of(pv.take(k as int)) == Some(mods),
        decreases last - k,
    {
        let p = lower_chars(&parts[k]);
        proof {
            assert(pv.take(k + 1).drop_last() =~= pv.take(k as int));
            assert(pv.take(k + 1).last() == parts@[k as int]@);
        }
        if is_text(&p, "ctrl") || is_text(&p, "control") {
            mods.control = true;
        } else if is_text(&p, "alt") {
            mods.alt = true;
        } else if is_text(&p, "shift") {
            mods.shift = true;
        } else {
            proof {
                assert(mods_of(pv.take(k + 1)) is None);
                assert(pv.drop_last().take(k + 1) =~= pv.take(k + 1));
                lemma_mods_fail(pv.drop_last(), (k + 1) as int);
            }
            return None;
        }
        k = k + 1;
    }
    assert(pv.take(last as int) =~= pv.drop_last());
    let code = match key_of_name(name) {
        Some(c) => c,
        None => return None,
    };
    if mods.shift {
        if let Key::Char(c) = code {
            return Some((Key::Char(upper_ascii(c)), Mods { control: mods.control, alt: mods.alt, shift: false }));
        }
    }
    Some((code, mods))
}

/// Once an unknown modifier is met, the whole description fails.
proof fn lemma_mods_fail(parts: Seq<Seq<char>>, k: int)
    requires
        0 <= k <= parts.len(),
        mods_of(parts.take(k)) is None,
    ensures
        mods_of(parts) is None,
    decreases parts.len() - k,
{
    if k < parts.len() {
        assert(parts.take(k + 1).drop_last() =~= parts.take(k));
        lemma_mods_fail(parts, k + 1);
    } else {
        assert(parts.take(k) =~= parts);
    }
}

/// How a key is shown; `compact` is for the hint bar (Tab shows as ⇥).
pub open spec fn key_base(code: Key, compact: bool) -> Seq<char> {
    match code {
        Key::Char(c) => if c == ' ' {
            "Space"@
        } else {
            seq![c]
        },
        Key::Left => "\u{2190}"@,
        Key::Right => "\u{2192}"@,
        Key::Up => "\u{2191}"@,
        Key::Down => "\u{2193}"@,
        Key::Tab => if compact {
            "\u{21e5}"@
        } else {
            "Tab"@
        },
        Key::F(n) => seq!['F'] + decimal(n as nat),
        Key::Enter => "Enter"@,
        Key::Esc => "Esc"@,
        Key::Backspace => "Backspace"@,
        Key::Home => "Home"@,
        Key::End => "End"@,
        Key::PageUp => "PageUp"@,
        Key::PageDown => "PageDown"@,
        Key::Delete => "Delete"@,
        Key::Insert => "Insert"@,
        Key::Other => "Other"@,
    }
}

/// How a key with its modifiers is shown: `ctrl+` and `alt+` before the key.
pub open spec fn key_display_spec(code: Key, mods: Mods, compact: bool) -> Seq<char> {
    (if mods.control {
        "ctrl+"@
    } else {
        Seq::empty()
    }) + (if mods.alt {
        "alt+"@
    } else {
        Seq::empty()
    }) + key_base(code, compact)
}

/// How a key is shown.
fn key_base_of(code: Key, compact: bool) -> (s: String)
    ensures
        s@ == key_base(code, compact),
{
    match code {
        Key::Char(c) => if c == ' ' {
            String::from_str("Space")
        } else {
            let mut s = String::new();
            crate::text::push_char(&mut s, c);
            assert(s@ =~= seq![c]);
            s
        },
        Key::Left => String::from_str("\u{2190}"),
        Key::Right => String::from_str("\u{2192}"),
        Key::Up => String::from_str("\u{2191}"),
        Key::Down => String::from_str("\u{2193}"),
        Key::Tab => if compact {
            String::from_str("\u{21e5}")
        } else {
            String::from_str("Tab")
        },
        Key::F(n) => {
            let mut s = String::new();
            crate::text::push_char(&mut s, 'F');
            let d = decimal_string(n as usize);
            s.append(d.as_str());
            assert(s@ =~= seq!['F'] + decimal(n as nat));
            s
        },
        Key::Enter => String::from_str("Enter"),
        Key::Esc => String::from_str("Esc"),
        Key::Backspace => String::from_str("Backspace"),
        Key::Home => String::from_str("Home"),
        Key::End => String::from_str("End"),
        Key::PageUp => String::from_str("PageUp"),
        Key::PageDown => String::from_str("PageDown"),
        Key::Delete => String::from_str("Delete"),
        Key::Insert => String::from_str("Insert"),
        Key::Other => String::from_str("Other"),
    }
}

/// How a key with its modifiers is shown.
pub fn key_display(code: Key, mods: Mods, compact: bool) -> (s: String)
    ensures
        s@ == key_display_spec(code, mods, compact),
{
    let mut out = String::new();
    if mods.control {
        out.append("ctrl+");
    }
    if mods.alt {
        out.append("alt+");
    }
    let base = key_base_of(code, compact);
    out.append(base.as_str());
    assert(out@ =~= key_display_spec(code, mods, compact));
    out
}

/// The actions of a key list, each once, in order of first appearance.
pub open spec fn distinct_actions(keys: Seq<(Key, Mods, Action)>) -> Seq<Action>
    decreases keys.len(),
{
    if keys.len() == 0 {
        Seq::empty()
    } else {
        let prev = distinct_actions(keys.drop_last());
        if prev.contains(keys.last().2) {
            prev
        } else {
            prev.push(keys.last().2)
        }
    }
}

/// Index of the first key bound to `a`, or the length when there is none.
pub open spec fn first_of(keys: Seq<(Key, Mods, Action)>, a: Action) -> int
    decreases keys.len(),
{
    if keys.len() == 0 {
        0
    } else if keys[0].2 == a {
        0
    } else {
        1 + first_of(keys.drop_first(), a)
    }
}

/// How the first key of `a` is shown.
pub open spec fn action_label(keys: Seq<(Key, Mods, Action)>, a: Action, compact: bool) -> Seq<char> {
    let k = keys[first_of(keys, a)];
    key_display_spec(k.0, k.1, compact)
}

/// The labels of a group's keys: for the help overlay, every key of a
/// one-action group, or the first key of each action (as `u / U`); for the
/// hint bar, the compact first key of each action (as `u/U`).
pub open spec fn labels_spec(keys: Seq<(Key, Mods, Action)>) -> (Seq<char>, Seq<char>) {
    let acts = distinct_actions(keys);
    let label = if acts.len() == 1 {
        crate::text::join(
            Seq::new(keys.len(), |i: int| key_display_spec(keys[i].0, keys[i].1, false)),
            " / "@,
        )
    } else {
        crate::text::join(Seq::new(acts.len(), |i: int| action_label(keys, acts[i], false)), " / "@)
    };
    let hint = crate::text::join(Seq::new(acts.len(), |i: int| action_label(keys, acts[i], true)), "/"@);
    (label, hint)
}

/// Bounds of `first_of`.
proof fn lemma_first_of(keys: Seq<(Key, Mods, Action)>, a: Action)
    ensures
        0 <= first_of(keys, a) <= keys.len(),
        first_of(keys, a) < keys.len() ==> keys[first_of(keys, a)].2 == a,
        forall|j: int| 0 <= j < first_of(keys, a) ==> keys[j].2 != a,
    decreases keys.len(),
{
    if keys.len() > 0 && keys[0].2 != a {
        lemma_first_of(keys.drop_first(), a);
        assert forall|j: int| 0 <= j < first_of(keys, a) implies keys[j].2 != a by {
            if j > 0 {
                assert(keys[j] == keys.drop_first()[j - 1]);
            }
        }
    }
}

/// Index of the first key bound to `a`.
fn first_index_of(keys: &Vec<(Key, Mods, Action)>, a: Action) -> (r: usize)
    ensures
        r == first_of(keys@, a),
{
    proof {
        lemma_first_of(keys@, a);
    }
    let mut i: usize = 0;
    while i < keys.len()
        invariant
            0 <= i <= keys@.len(),
            forall|j: int| 0 <= j < i ==> keys@[j].2 != a,
            0 <= first_of(keys@, a) <= keys@.len(),
            first_of(keys@, a) < keys@.len() ==> keys@[first_of(keys@, a)].2 == a,
            forall|j: int| 0 <= j < first_of(keys@, a) ==> keys@[j].2 != a,
        decreases keys@.len() - i,
    {
        if keys[i].2 == a {
            return i;
        }
        i = i + 1;
    }
    i
}

/// The actions of a key list, each once.
fn distinct_of(keys: &Vec<(Key, Mods, Action)>) -> (acts: Vec<Action>)
    ensures
        acts@ == distinct_actions(keys@),
        forall|i: int| 0 <= i < acts@.len() ==> first_of(keys@, #[trigger] acts@[i]) < keys@.len(),
{
    let mut acts: Vec<Action> = Vec::new();
    let mut i: usize = 0;
    while i < keys.len()
        invariant
            0 <= i <= keys@.len(),
            acts@ == distinct_actions(keys@.take(i as int)),
            forall|j: int| 0 <= j < acts@.len() ==> first_of(keys@, #[trigger] acts@[j]) < i,
        decreases keys@.len() - i,
    {
        let a = keys[i].2;
        assert(keys@.take(i + 1).drop_last() =~= keys@.take(i as int));
        let mut k: usize = 0;
        let mut found = false;
        while k < acts.len()
            invariant
                0 <= k <= acts@.len(),
                found == exists|j: int| 0 <= j < k && acts@[j] == a,
            decreases acts@.len() - k,
        {
            if acts[k] == a {
                found = true;
            }
            k = k + 1;
        }
        proof {
            lemma_first_of(keys@, a);
            if found {
                let j = choose|j: int| 0 <= j < acts@.len() && acts@[j] == a;
                assert(acts@.contains(a));
            } else {
                assert(!acts@.contains(a));
            }
        }
        if !found {
            proof {
                assert(first_of(keys@, a) <= i) by {
                    if first_of(keys@, a) > i {
                        assert(keys@[i as int].2 != a);
                    }
                }
            }
            acts.push(a);
        }
        i = i + 1;
    }
    assert(keys@.take(keys@.len() as int) =~= keys@);
    acts
}

/// The help and hint labels of a group's keys.
pub fn derive_labels(keys: &Vec<(Key, Mods, Action)>) -> (r: (String, String))
    ensures
        (r.0@, r.1@) == labels_spec(keys@),
{
    let acts = distinct_of(keys);
    let mut long: Vec<String> = Vec::new();
    let mut short: Vec<String> = Vec::new();
    let mut i: usize = 0;
    assert(crate::text::strings_view(long@) =~= Seq::new(0 as nat, |j: int| action_label(keys@, acts@[j], false)));
    assert(crate::text::strings_view(short@) =~= Seq::new(0 as nat, |j: int| action_label(keys@, acts@[j], true)));
    while i < acts.len()
        invariant
            0 <= i <= acts@.len(),
            acts@ == distinct_actions(keys@),
            forall|j: int| 0 <= j < acts@.len() ==> first_of(keys@, #[trigger] acts@[j]) < keys@.len(),
            strings_view_eq(long@, Seq::new(i as nat, |j: int| action_label(keys@, acts@[j], false))),
            strings_view_eq(short@, Seq::new(i as nat, |j: int| action_label(keys@, acts@[j], true))),
        decreases acts@.len() - i,
    {
        let f = first_index_of(keys, acts[i]);
        assert(f < keys@.len());
        let k = keys[f];
        let l = key_display(k.0, k.1, false);
        let h = key_display(k.0, k.1, true);
        let ghost lb = long@;
        let ghost sb = short@;
        long.push(l);
        short.push(h);
        proof {
            crate::text::lemma_strings_push(lb, l);
            crate::text::lemma_strings_push(sb, h);
            assert(crate::text::strings_view(long@) =~= Seq::new((i + 1) as nat, |j: int| action_label(keys@, acts@[j], false)));
            assert(crate::text::strings_view(short@) =~= Seq::new((i + 1) as nat, |j: int| action_label(keys@, acts@[j], true)));
        }
        i = i + 1;
    }
    let hint = crate::text::join_strings(&short, "/");
    if acts.len() == 1 {
        let mut all: Vec<String> = Vec::new();
        let mut j: usize = 0;
        assert(crate::text::strings_view(all@) =~= Seq::new(0 as nat, |m: int| key_display_spec(keys@[m].0, keys@[m].1, false)));
        while j < keys.len()
            invariant
                0 <= j <= keys@.len(),
                strings_view_eq(all@, Seq::new(j as nat, |m: int| key_display_spec(keys@[m].0, keys@[m].1, false))),
            decreases keys@.len() - j,
        {
            let k = keys[j];
            let d = key_display(k.0, k.1, false);
            let ghost ab = all@;
            all.push(d);
            proof {
                crate::text::lemma_strings_push(ab, d);
                assert(crate::text::strings_view(all@) =~= Seq::new((j + 1) as nat, |m: int| key_display_spec(keys@[m].0, keys@[m].1, false)));
            }
            j = j + 1;
        }
        (crate::text::join_strings(&all, " / "), hint)
    } else {
        (crate::text::join_strings(&long, " / "), hint)
    }
}

/// The views of the strings are the given texts.
pub open spec fn strings_view_eq(v: Seq<String>, t: Seq<Seq<char>>) -> bool {
    crate::text::strings_view(v) == t
}

/// A group of default bindings: shown as one line (such as `u / U`), it can
/// hold several keys and actions.
#[derive(Debug, Clone)]
pub struct Binding {
    /// The action that names the group (layouts refer to it)
    pub id: Action,
    /// Keys and their actions
    pub keys: Vec<(Key, Action)>,
    /// Message key of the hint bar text; None keeps the group off the bar
    pub hint: Option<&'static str>,
    /// Message key of the help overlay text
    pub help: &'static str,
}

/// Mathematical view of a binding group.
pub struct BindingView {
    pub id: Action,
    pub keys: Seq<(Key, Action)>,
    pub hint: Option<Seq<char>>,
    pub help: Seq<char>,
}

/// View of an optional message key.
pub open spec fn opt_str(o: Option<&'static str>) -> Option<Seq<char>> {
    match o {
        Some(s) => Some(s@),
        None => None,
    }
}

impl View for Binding {
    type V = BindingView;

    open spec fn view(&self) -> BindingView {
        BindingView { id: self.id, keys: self.keys@, hint: opt_str(self.hint), help: self.help@ }
    }
}

/// A binding group in spec form.
pub open spec fn group_spec(id: Action, keys: Seq<(Key, Action)>, hint: Option<Seq<char>>, help: Seq<char>) -> BindingView {
    BindingView { id, keys, hint, help }
}

/// The built-in bindings.
pub open spec fn default_spec() -> Seq<BindingView> {
    seq![
        group_spec(Action::TakeLocal, seq![(Key::Char('h'), Action::TakeLocal), (Key::Left, Action::TakeLocal)], Some("ui.hint_left"@), "ui.help_left"@),
        group_spec(Action::TakeRemote, seq![(Key::Char('l'), Action::TakeRemote), (Key::Right, Action::TakeRemote)], Some("ui.hint_right"@), "ui.help_right"@),
        group_spec(Action::IgnoreChunk, seq![(Key::Char('x'), Action::IgnoreChunk)], Some("ui.hint_ignore"@), "ui.help_ignore"@),
        group_spec(Action::UndoChunk, seq![(Key::Char('u'), Action::UndoChunk), (Key::Char('U'), Action::UndoFile)], Some("ui.hint_undo"@), "ui.help_undo"@),
        group_spec(Action::EditChunk, seq![(Key::Char('e'), Action::EditChunk)], Some("ui.hint_edit"@), "ui.help_edit"@),
        group_spec(Action::ApplyNonConflict, seq![(Key::Char('a'), Action::ApplyNonConflict)], None, "ui.help_apply"@),
        group_spec(Action::WriteFile, seq![(Key::Char('w'), Action::WriteFile)], Some("ui.hint_write"@), "ui.help_write"@),
        group_spec(Action::Quit, seq![(Key::Char('q'), Action::Quit)], Some("ui.hint_quit"@), "ui.help_quit"@),
        group_spec(
            Action::NextChange,
            seq![(Key::Char('j'), Action::NextChange), (Key::Down, Action::NextChange), (Key::Char('k'), Action::PrevChange), (Key::Up, Action::PrevChange)],
            None,
            "ui.help_move"@,
        ),
        group_spec(Action::NextConflict, seq![(Key::Char('n'), Action::NextConflict), (Key::Char('p'), Action::PrevConflict)], Some("ui.hint_conflict"@), "ui.help_jump"@),
        group_spec(Action::NextFile, seq![(Key::Tab, Action::NextFile)], Some("ui.hint_file"@), "ui.help_tab"@),
        group_spec(Action::ToggleFold, seq![(Key::Char('z'), Action::ToggleFold)], Some("ui.hint_fold"@), "ui.help_fold"@),
        group_spec(Action::CopyChunk, seq![(Key::Char('y'), Action::CopyChunk)], None, "ui.help_copy_chunk"@),
        group_spec(Action::CopyFile, seq![(Key::Char('Y'), Action::CopyFile)], None, "ui.help_copy_file"@),
        group_spec(Action::CopyLocal, seq![(Key::Char('H'), Action::CopyLocal), (Key::Char('L'), Action::CopyRemote)], None, "ui.help_copy_sides"@),
        group_spec(Action::Help, seq![(Key::Char('?'), Action::Help)], Some("ui.hint_help"@), "ui.help_help"@),
    ]
}

/// One binding group.
fn group_of(id: Action, keys: Vec<(Key, Action)>, hint: Option<&'static str>, help: &'static str) -> (b: Binding)
    ensures
        b@ == group_spec(id, keys@, opt_str(hint), help@),
{
    Binding { id, keys, hint, help }
}

/// The built-in bindings, the one source of keys, hints and help.
pub fn default_bindings() -> (v: Vec<Binding>)
    ensures
        v@.map_values(|b: Binding| b@) == default_spec(),
{
    let v = vec![
        group_of(Action::TakeLocal, vec![(Key::Char('h'), Action::TakeLocal), (Key::Left, Action::TakeLocal)], Some("ui.hint_left"), "ui.help_left"),
        group_of(Action::TakeRemote, vec![(Key::Char('l'), Action::TakeRemote), (Key::Right, Action::TakeRemote)], Some("ui.hint_right"), "ui.help_right"),
        group_of(Action::IgnoreChunk, vec![(Key::Char('x'), Action::IgnoreChunk)], Some("ui.hint_ignore"), "ui.help_ignore"),
        group_of(Action::UndoChunk, vec![(Key::Char('u'), Action::UndoChunk), (Key::Char('U'), Action::UndoFile)], Some("ui.hint_undo"), "ui.help_undo"),
        group_of(Action::EditChunk, vec![(Key::Char('e'), Action::EditChunk)], Some("ui.hint_edit"), "ui.help_edit"),
        group_of(Action::ApplyNonConflict, vec![(Key::Char('a'), Action::ApplyNonConflict)], None, "ui.help_apply"),
        group_of(Action::WriteFile, vec![(Key::Char('w'), Action::WriteFile)], Some("ui.hint_write"), "ui.help_write"),
        group_of(Action::Quit, vec![(Key::Char('q'), Action::Quit)], Some("ui.hint_quit"), "ui.help_quit"),
        group_of(
            Action::NextChange,
            vec![(Key::Char('j'), Action::NextChange), (Key::Down, Action::NextChange), (Key::Char('k'), Action::PrevChange), (Key::Up, Action::PrevChange)],
            None,
            "ui.help_move",
        ),
        group_of(Action::NextConflict, vec![(Key::Char('n'), Action::NextConflict), (Key::Char('p'), Action::PrevConflict)], Some("ui.hint_conflict"), "ui.help_jump"),
        group_of(Action::NextFile, vec![(Key::Tab, Action::NextFile)], Some("ui.hint_file"), "ui.help_tab"),
        group_of(Action::ToggleFold, vec![(Key::Char('z'), Action::ToggleFold)], Some("ui.hint_fold"), "ui.help_fold"),
        group_of(Action::CopyChunk, vec![(Key::Char('y'), Action::CopyChunk)], None, "ui.help_copy_chunk"),
        group_of(Action::CopyFile, vec![(Key::Char('Y'), Action::CopyFile)], None, "ui.help_copy_file"),
        group_of(Action::CopyLocal, vec![(Key::Char('H'), Action::CopyLocal), (Key::Char('L'), Action::CopyRemote)], None, "ui.help_copy_sides"),
        group_of(Action::Help, vec![(Key::Char('?'), Action::Help)], Some("ui.hint_help"), "ui.help_help"),
    ];
    assert(v@.len() == default_spec().len());
    assert(v@[0].keys@ =~= default_spec()[0].keys);
    assert(v@[0]@ == default_spec()[0]);
    assert(v@[1].keys@ =~= default_spec()[1].keys);
    assert(v@[1]@ == default_spec()[1]);
    assert(v@[2].keys@ =~= default_spec()[2].keys);
    assert(v@[2]@ == default_spec()[2]);
    assert(v@[3].keys@ =~= default_spec()[3].keys);
    assert(v@[3]@ == default_spec()[3]);
    assert(v@[4].keys@ =~= default_spec()[4].keys);
    assert(v@[4]@ == default_spec()[4]);
    assert(v@[5].keys@ =~= default_spec()[5].keys);
    assert(v@[5]@ == default_spec()[5]);
    assert(v@[6].keys@ =~= default_spec()[6].keys);
    assert(v@[6]@ == default_spec()[6]);
    assert(v@[7].keys@ =~= default_spec()[7].keys);
    assert(v@[7]@ == default_spec()[7]);
    assert(v@[8].keys@ =~= default_spec()[8].keys);
    assert(v@[8]@ == default_spec()[8]);
    assert(v@[9].keys@ =~= default_spec()[9].keys);
    assert(v@[9]@ == default_spec()[9]);
    assert(v@[10].keys@ =~= default_spec()[10].keys);
    assert(v@[10]@ == default_spec()[10]);
    assert(v@[11].keys@ =~= default_spec()[11].keys);
    assert(v@[11]@ == default_spec()[11]);
    assert(v@[12].keys@ =~= default_spec()[12].keys);
    assert(v@[12]@ == default_spec()[12]);
    assert(v@[13].keys@ =~= default_spec()[13].keys);
    assert(v@[13]@ == default_spec()[13]);
    assert(v@[14].keys@ =~= default_spec()[14].keys);
    assert(v@[14]@ == default_spec()[14]);
    assert(v@[15].keys@ =~= default_spec()[15].keys);
    assert(v@[15]@ == default_spec()[15]);
    assert(v@.map_values(|b: Binding| b@) =~= default_spec());
    v
}

/// Every group can be reached through its own keys: its naming action is
/// bound to one of them.
pub proof fn law_group_ids_reachable()
    ensures
        forall|i: int|
            0 <= i < default_spec().len() ==> exists|j: int|
                0 <= j < (#[trigger] default_spec()[i]).keys.len() && default_spec()[i].keys[j].1 == default_spec()[i].id,
{
    let d = default_spec();
    assert forall|i: int| 0 <= i < d.len() implies exists|j: int|
        0 <= j < (#[trigger] d[i]).keys.len() && d[i].keys[j].1 == d[i].id by {
        assert(d[i].keys[0].1 == d[i].id);
    }
}

/// Order of the hint bar (naming actions of groups).
pub open spec fn hint_layout() -> Seq<Action> {
    seq![
        Action::TakeLocal,
        Action::TakeRemote,
        Action::IgnoreChunk,
        Action::UndoChunk,
        Action::EditChunk,
        Action::NextConflict,
        Action::WriteFile,
        Action::NextFile,
        Action::ToggleFold,
        Action::Quit,
        Action::Help,
    ]
}

/// Order of the left column of the help overlay.
pub open spec fn help_left_layout() -> Seq<Action> {
    seq![
        Action::TakeLocal,
        Action::TakeRemote,
        Action::IgnoreChunk,
        Action::UndoChunk,
        Action::EditChunk,
        Action::ApplyNonConflict,
        Action::WriteFile,
        Action::Quit,
    ]
}

/// Order of the right column of the help overlay.
pub open spec fn help_right_layout() -> Seq<Action> {
    seq![
        Action::NextChange,
        Action::NextConflict,
        Action::NextFile,
        Action::ToggleFold,
        Action::CopyChunk,
        Action::CopyFile,
        Action::CopyLocal,
        Action::Help,
    ]
}

/// The hint bar order.
fn hint_layout_of() -> (v: Vec<Action>)
    ensures
        v@ == hint_layout(),
{
    let v = vec![
        Action::TakeLocal,
        Action::TakeRemote,
        Action::IgnoreChunk,
        Action::UndoChunk,
        Action::EditChunk,
        Action::NextConflict,
        Action::WriteFile,
        Action::NextFile,
        Action::ToggleFold,
        Action::Quit,
        Action::Help,
    ];
    assert(v@ =~= hint_layout());
    v
}

/// The left help column order.
fn help_left_of() -> (v: Vec<Action>)
    ensures
        v@ == help_left_layout(),
{
    let v = vec![
        Action::TakeLocal,
        Action::TakeRemote,
        Action::IgnoreChunk,
        Action::UndoChunk,
        Action::EditChunk,
        Action::ApplyNonConflict,
        Action::WriteFile,
        Action::Quit,
    ];
    assert(v@ =~= help_left_layout());
    v
}

/// The right help column order.
fn help_right_of() -> (v: Vec<Action>)
    ensures
        v@ == help_right_layout(),
{
    let v = vec![
        Action::NextChange,
        Action::NextConflict,
        Action::NextFile,
        Action::ToggleFold,
        Action::CopyChunk,
        Action::CopyFile,
        Action::CopyLocal,
        Action::Help,
    ];
    assert(v@ =~= help_right_layout());
    v
}

/// Every group the hint bar names exists and has a hint text, and every
/// group the help overlay names exists.
pub proof fn law_layouts_name_groups()
    ensures
        forall|i: int|
            0 <= i < hint_layout().len() ==> exists|j: int|
                0 <= j < default_spec().len() && default_spec()[j].id == #[trigger] hint_layout()[i]
                    && default_spec()[j].hint is Some,
        forall|i: int|
            0 <= i < help_left_layout().len() ==> exists|j: int|
                0 <= j < default_spec().len() && default_spec()[j].id == #[trigger] help_left_layout()[i],
        forall|i: int|
            0 <= i < help_right_layout().len() ==> exists|j: int|
                0 <= j < default_spec().len() && default_spec()[j].id == #[trigger] help_right_layout()[i],
{
    let d = default_spec();
    let h = hint_layout();
    assert(d[0].id == h[0] && d[1].id == h[1] && d[2].id == h[2] && d[3].id == h[3] && d[4].id == h[4]);
    assert(d[9].id == h[5] && d[6].id == h[6] && d[10].id == h[7] && d[11].id == h[8] && d[7].id == h[9]
        && d[15].id == h[10]);
    let l = help_left_layout();
    assert(d[0].id == l[0] && d[1].id == l[1] && d[2].id == l[2] && d[3].id == l[3] && d[4].id == l[4]
        && d[5].id == l[5] && d[6].id == l[6] && d[7].id == l[7]);
    let r = help_right_layout();
    assert(d[8].id == r[0] && d[9].id == r[1] && d[10].id == r[2] && d[11].id == r[3] && d[12].id == r[4]
        && d[13].id == r[5] && d[14].id == r[6] && d[15].id == r[7]);
}

/// A binding group with the overrides applied; its labels come from its keys.
#[derive(Debug)]
pub struct EffectiveBinding {
    /// The action that names the group
    pub id: Action,
    /// Keys (with modifiers) and their actions
    pub keys: Vec<(Key, Mods, Action)>,
    /// Key label of the help overlay (such as `u / U`)
    pub label: String,
    /// Compact key label of the hint bar (such as `u/U`)
    pub hint_label: String,
    /// Message key of the hint bar text
    pub hint: Option<&'static str>,
    /// Message key of the help overlay text
    pub help: &'static str,
}

/// Mathematical view of an effective binding group.
pub struct EffectiveView {
    pub id: Action,
    pub keys: Seq<(Key, Mods, Action)>,
    pub label: Seq<char>,
    pub hint_label: Seq<char>,
    pub hint: Option<Seq<char>>,
    pub help: Seq<char>,
}

impl View for EffectiveBinding {
    type V = EffectiveView;

    open spec fn view(&self) -> EffectiveView {
        EffectiveView {
            id: self.id,
            keys: self.keys@,
            label: self.label@,
            hint_label: self.hint_label@,
            hint: opt_str(self.hint),
            help: self.help@,
        }
    }
}

/// The views of a table.
pub open spec fn table_view(t: Seq<EffectiveBinding>) -> Seq<EffectiveView> {
    t.map_values(|b: EffectiveBinding| b@)
}

/// Why a `[keys]` entry cannot be used.
pub enum OverrideFault {
    /// The name is no action
    UnknownAction(Seq<char>),
    /// The key description cannot be read (action name, description)
    BadKey(Seq<char>, Seq<char>),
}

/// The `[keys]` entries read in order: the key each overridden action gets
/// (a later entry for the same action wins), or the first entry that is wrong.
pub open spec fn parse_overrides(ov: Seq<(String, String)>) -> Result<Map<Action, (Key, Mods)>, OverrideFault>
    decreases ov.len(),
{
    if ov.len() == 0 {
        Ok(Map::empty())
    } else {
        match parse_overrides(ov.drop_last()) {
            Err(f) => Err(f),
            Ok(m) => {
                let name = ov.last().0@;
                let desc = ov.last().1@;
                match action_named(name) {
                    None => Err(OverrideFault::UnknownAction(name)),
                    Some(a) => match parse_key_spec(desc) {
                        None => Err(OverrideFault::BadKey(name, desc)),
                        Some(k) => Ok(m.insert(a, k)),
                    },
                }
            },
        }
    }
}

/// The map that a list of (action, key) pairs builds, later pairs winning.
pub open spec fn pairs_map(v: Seq<(Action, (Key, Mods))>) -> Map<Action, (Key, Mods)>
    decreases v.len(),
{
    if v.len() == 0 {
        Map::empty()
    } else {
        pairs_map(v.drop_last()).insert(v.last().0, v.last().1)
    }
}

/// The keys of a default group with the overrides applied: an overridden
/// action loses all its default keys and gets the configured key once, at
/// the place of its first default key.
pub open spec fn eff_keys(keys: Seq<(Key, Action)>, parsed: Map<Action, (Key, Mods)>) -> Seq<(Key, Mods, Action)>
    decreases keys.len(),
{
    if keys.len() == 0 {
        Seq::empty()
    } else {
        let prev = eff_keys(keys.drop_last(), parsed);
        let a = keys.last().1;
        if parsed.dom().contains(a) {
            if keys.drop_last().map_values(|p: (Key, Action)| p.1).contains(a) {
                prev
            } else {
                prev.push((parsed[a].0, parsed[a].1, a))
            }
        } else {
            prev.push((keys.last().0, no_mods(), a))
        }
    }
}

/// A default group with the overrides applied.
pub open spec fn eff_group(b: BindingView, parsed: Map<Action, (Key, Mods)>) -> EffectiveView {
    let keys = eff_keys(b.keys, parsed);
    EffectiveView {
        id: b.id,
        keys,
        label: labels_spec(keys).0,
        hint_label: labels_spec(keys).1,
        hint: b.hint,
        help: b.help,
    }
}

/// All default groups with the overrides applied.
pub open spec fn eff_table(parsed: Map<Action, (Key, Mods)>) -> Seq<EffectiveView> {
    default_spec().map_values(|b: BindingView| eff_group(b, parsed))
}

/// All keys of a table, group after group.
pub open spec fn flat_keys(t: Seq<EffectiveView>) -> Seq<(Key, Mods, Action)>
    decreases t.len(),
{
    if t.len() == 0 {
        Seq::empty()
    } else {
        flat_keys(t.drop_last()) + t.last().keys
    }
}

/// Whether the key (with modifiers) is bound by one of the first `j` entries.
pub open spec fn bound_before(s: Seq<(Key, Mods, Action)>, j: int, k: Key, m: Mods) -> bool
    decreases j,
{
    j > 0 && ((s[j - 1].0 == k && s[j - 1].1 == m) || bound_before(s, j - 1, k, m))
}

/// Whether the key at `j` repeats the key (with modifiers) of an earlier entry.
pub open spec fn repeats_earlier(s: Seq<(Key, Mods, Action)>, j: int) -> bool {
    bound_before(s, j, s[j].0, s[j].1)
}

/// `bound_before` holds exactly when one of the first `j` entries has the key.
proof fn lemma_bound_before(s: Seq<(Key, Mods, Action)>, j: int, k: Key, m: Mods)
    ensures
        bound_before(s, j, k, m) == exists|i: int| 0 <= i < j && s[i].0 == k && s[i].1 == m,
    decreases j,
{
    if j > 0 {
        lemma_bound_before(s, j - 1, k, m);
    }
}

/// The first of the first `n` entries whose key was already bound, if any.
pub open spec fn dup_in(s: Seq<(Key, Mods, Action)>, n: int) -> Option<int>
    decreases n,
{
    if n <= 0 {
        None
    } else {
        match dup_in(s, n - 1) {
            Some(j) => Some(j),
            None => if repeats_earlier(s, n - 1) {
                Some(n - 1)
            } else {
                None
            },
        }
    }
}

/// The first entry whose key was already bound, if any.
pub open spec fn first_dup(s: Seq<(Key, Mods, Action)>) -> Option<int> {
    dup_in(s, s.len() as int)
}

/// The message for an unknown action name.
pub open spec fn bad_action_msg(i: I18n, name: Seq<char>) -> Seq<char> {
    fill_one(fill_one(tr_spec(i, "config.bad_action"@), "name"@, name), "list"@, action_list())
}

/// The message for an unreadable key description.
pub open spec fn bad_key_msg(i: I18n, name: Seq<char>, desc: Seq<char>) -> Seq<char> {
    fill_one(fill_one(tr_spec(i, "config.bad_key"@), "name"@, name), "key"@, desc)
}

/// The message for a key bound twice.
pub open spec fn conflict_msg(i: I18n, k: (Key, Mods, Action)) -> Seq<char> {
    fill_one(tr_spec(i, "config.key_conflict"@), "key"@, key_display_spec(k.0, k.1, false))
}

/// What building the table gives: the effective table, or the message of
/// the first wrong entry, or of the first key bound twice.
pub open spec fn build_spec(i: I18n, ov: Seq<(String, String)>) -> Result<Seq<EffectiveView>, Seq<char>> {
    match parse_overrides(ov) {
        Err(OverrideFault::UnknownAction(n)) => Err(bad_action_msg(i, n)),
        Err(OverrideFault::BadKey(n, d)) => Err(bad_key_msg(i, n, d)),
        Ok(p) => match first_dup(flat_keys(eff_table(p))) {
            Some(j) => Err(conflict_msg(i, flat_keys(eff_table(p))[j])),
            None => Ok(eff_table(p)),
        },
    }
}

/// The message for an unknown action name.
fn bad_action_message(i18n: &I18n, name: &String) -> (m: String)
    ensures
        m@ == bad_action_msg(*i18n, name@),
{
    let args = vec![
        (String::from_str("name"), crate::text::copy_string(name)),
        (String::from_str("list"), action_names()),
    ];
    let m = tr_f(i18n, "config.bad_action", &args);
    proof {
        reveal_with_fuel(fill, 3);
    }
    m
}

/// The message for an unreadable key description.
fn bad_key_message(i18n: &I18n, name: &String, desc: &String) -> (m: String)
    ensures
        m@ == bad_key_msg(*i18n, name@, desc@),
{
    let args = vec![
        (String::from_str("name"), crate::text::copy_string(name)),
        (String::from_str("key"), crate::text::copy_string(desc)),
    ];
    let m = tr_f(i18n, "config.bad_key", &args);
    proof {
        reveal_with_fuel(fill, 3);
    }
    m
}

/// The message for a key bound twice.
fn conflict_message(i18n: &I18n, k: (Key, Mods, Action)) -> (m: String)
    ensures
        m@ == conflict_msg(*i18n, k),
{
    let args = vec![(String::from_str("key"), key_display(k.0, k.1, false))];
    let m = tr_f(i18n, "config.key_conflict", &args);
    proof {
        reveal_with_fuel(fill, 2);
    }
    m
}

/// Reads the `[keys]` entries in order into (action, key) pairs.
pub fn parse_override_list(i18n: &I18n, overrides: &Vec<(String, String)>) -> (r: Result<Vec<(Action, (Key, Mods))>, String>)
    ensures
        match parse_overrides(overrides@) {
            Err(OverrideFault::UnknownAction(n)) => r is Err && r->Err_0@ == bad_action_msg(*i18n, n),
            Err(OverrideFault::BadKey(n, d)) => r is Err && r->Err_0@ == bad_key_msg(*i18n, n, d),
            Ok(m) => r is Ok && pairs_map(r->Ok_0@) == m,
        },
{
    let mut v: Vec<(Action, (Key, Mods))> = Vec::new();
    let mut i: usize = 0;
    while i < overrides.len()
        invariant
            0 <= i <= overrides@.len(),
            parse_overrides(overrides@.take(i as int)) == Ok::<Map<Action, (Key, Mods)>, OverrideFault>(pairs_map(v@)),
        decreases overrides@.len() - i,
    {
        let name = &overrides[i].0;
        let desc = &overrides[i].1;
        proof {
            assert(overrides@.take(i + 1).drop_last() =~= overrides@.take(i as int));
            assert(overrides@.take(i + 1).last() == overrides@[i as int]);
        }
        let action = match action_by_name(name.as_str()) {
            Some(a) => a,
            None => {
                proof {
                    lemma_overrides_fail(overrides@, i + 1);
                }
                return Err(bad_action_message(i18n, name));
            },
        };
        let key = match parse_key(desc.as_str()) {
            Some(k) => k,
            None => {
                proof {
                    lemma_overrides_fail(overrides@, i + 1);
                }
                return Err(bad_key_message(i18n, name, desc));
            },
        };
        let ghost before = v@;
        v.push((action, key));
        assert(v@.drop_last() =~= before);
        i = i + 1;
    }
    assert(overrides@.take(overrides@.len() as int) =~= overrides@);
    Ok(v)
}

/// Once an entry is wrong, reading all entries fails with that same fault.
proof fn lemma_overrides_fail(ov: Seq<(String, String)>, k: int)
    requires
        0 <= k <= ov.len(),
        parse_overrides(ov.take(k)) is Err,
    ensures
        parse_overrides(ov) == parse_overrides(ov.take(k)),
    decreases ov.len() - k,
{
    if k < ov.len() {
        assert(ov.take(k + 1).drop_last() =~= ov.take(k));
        lemma_overrides_fail(ov, k + 1);
    } else {
        assert(ov.take(k) =~= ov);
    }
}

/// Pairs after `i` that do not name `a` leave its entry as it was.
proof fn lemma_pairs_tail(v: Seq<(Action, (Key, Mods))>, i: int, a: Action)
    requires
        0 <= i <= v.len(),
        forall|k: int| i <= k < v.len() ==> (#[trigger] v[k]).0 != a,
    ensures
        pairs_map(v).dom().contains(a) == pairs_map(v.take(i)).dom().contains(a),
        pairs_map(v).dom().contains(a) ==> pairs_map(v)[a] == pairs_map(v.take(i))[a],
    decreases v.len() - i,
{
    if i < v.len() {
        assert(v.take(i + 1).drop_last() =~= v.take(i));
        lemma_pairs_tail(v, i + 1, a);
    } else {
        assert(v.take(i) =~= v);
    }
}

/// The key an action was given, if any.
fn lookup_pair(v: &Vec<(Action, (Key, Mods))>, a: Action) -> (r: Option<(Key, Mods)>)
    ensures
        r == if pairs_map(v@).dom().contains(a) {
            Some(pairs_map(v@)[a])
        } else {
            None::<(Key, Mods)>
        },
{
    let mut i = v.len();
    while i > 0
        invariant
            0 <= i <= v@.len(),
            forall|k: int| i <= k < v@.len() ==> (#[trigger] v@[k]).0 != a,
        decreases i,
    {
        if v[i - 1].0 == a {
            proof {
                lemma_pairs_tail(v@, i as int, a);
                assert(v@.take(i as int).drop_last() =~= v@.take(i - 1));
            }
            return Some(v[i - 1].1);
        }
        i = i - 1;
    }
    proof {
        lemma_pairs_tail(v@, 0, a);
        assert(v@.take(0) =~= Seq::<(Action, (Key, Mods))>::empty());
    }
    None
}

/// The keys of a default group with the overrides applied.
fn eff_keys_of(keys: &Vec<(Key, Action)>, parsed: &Vec<(Action, (Key, Mods))>) -> (out: Vec<(Key, Mods, Action)>)
    ensures
        out@ == eff_keys(keys@, pairs_map(parsed@)),
{
    let ghost pm = pairs_map(parsed@);
    let mut out: Vec<(Key, Mods, Action)> = Vec::new();
    let mut i: usize = 0;
    while i < keys.len()
        invariant
            0 <= i <= keys@.len(),
            pm == pairs_map(parsed@),
            out@ == eff_keys(keys@.take(i as int), pm),
        decreases keys@.len() - i,
    {
        let (code, a) = keys[i];
        proof {
            assert(keys@.take(i + 1).drop_last() =~= keys@.take(i as int));
            assert(keys@.take(i + 1).last() == keys@[i as int]);
        }
        match lookup_pair(parsed, a) {
            Some(k) => {
                let mut j: usize = 0;
                let mut earlier = false;
                while j < i
                    invariant
                        0 <= j <= i < keys@.len(),
                        earlier == exists|m: int| 0 <= m < j && keys@[m].1 == a,
                    decreases i - j,
                {
                    if keys[j].1 == a {
                        earlier = true;
                    }
                    j = j + 1;
                }
                proof {
                    let prev = keys@.take(i as int).map_values(|p: (Key, Action)| p.1);
                    if earlier {
                        let m = choose|m: int| 0 <= m < i && keys@[m].1 == a;
                        assert(prev[m] == a);
                    } else {
                        assert forall|m: int| 0 <= m < prev.len() implies prev[m] != a by {
                            assert(prev[m] == keys@[m].1);
                        }
                    }
                }
                if !earlier {
                    out.push((k.0, k.1, a));
                }
            },
            None => {
                out.push((code, Mods { control: false, alt: false, shift: false }, a));
            },
        }
        i = i + 1;
    }
    assert(keys@.take(keys@.len() as int) =~= keys@);
    out
}

/// Whether the entry at `j` repeats an earlier key.
fn repeats_before(flat: &Vec<(Key, Mods, Action)>, j: usize) -> (r: bool)
    requires
        j < flat@.len(),
    ensures
        r == repeats_earlier(flat@, j as int),
{
    let mut i: usize = 0;
    while i < j
        invariant
            0 <= i <= j < flat@.len(),
            forall|m: int| 0 <= m < i ==> !(flat@[m].0 == flat@[j as int].0 && flat@[m].1 == flat@[j as int].1),
        decreases j - i,
    {
        if flat[i].0 == flat[j].0 && flat[i].1 == flat[j].1 {
            proof {
                lemma_bound_before(flat@, j as int, flat@[j as int].0, flat@[j as int].1);
            }
            return true;
        }
        i = i + 1;
    }
    proof {
        lemma_bound_before(flat@, j as int, flat@[j as int].0, flat@[j as int].1);
    }
    false
}

/// The first entry whose key was already bound, if any.
fn first_dup_of(flat: &Vec<(Key, Mods, Action)>) -> (r: Option<usize>)
    ensures
        match first_dup(flat@) {
            Some(j) => r == Some(j as usize) && 0 <= j < flat@.len(),
            None => r is None,
        },
{
    let mut j: usize = 0;
    while j < flat.len()
        invariant
            0 <= j <= flat@.len(),
            dup_in(flat@, j as int) is None,
        decreases flat@.len() - j,
    {
        if repeats_before(flat, j) {
            proof {
                lemma_dup_stays(flat@, j + 1);
            }
            return Some(j);
        }
        j = j + 1;
    }
    None
}

/// A repeat found among the first `n` entries is the first repeat of the
/// whole list, and lies among those entries.
proof fn lemma_dup_stays(s: Seq<(Key, Mods, Action)>, n: int)
    requires
        0 <= n <= s.len(),
        dup_in(s, n) is Some,
    ensures
        first_dup(s) == dup_in(s, n),
        0 <= dup_in(s, n)->Some_0 < n,
    decreases s.len() - n,
{
    lemma_dup_bound(s, n);
    if n < s.len() {
        lemma_dup_stays(s, n + 1);
    }
}

/// Where `dup_in` finds a repeat.
proof fn lemma_dup_bound(s: Seq<(Key, Mods, Action)>, n: int)
    ensures
        dup_in(s, n) matches Some(j) ==> 0 <= j < n,
    decreases n,
{
    if n > 0 {
        lemma_dup_bound(s, n - 1);
    }
}

/// All default groups with the parsed overrides applied.
fn eff_table_of(parsed: &Vec<(Action, (Key, Mods))>) -> (table: Vec<EffectiveBinding>)
    ensures
        table_view(table@) == eff_table(pairs_map(parsed@)),
{
    let ghost pm = pairs_map(parsed@);
    let defaults = default_bindings();
    let mut table: Vec<EffectiveBinding> = Vec::new();
    let mut i: usize = 0;
    while i < defaults.len()
        invariant
            0 <= i <= defaults@.len(),
            defaults@.map_values(|b: Binding| b@) == default_spec(),
            pm == pairs_map(parsed@),
            table_view(table@) == eff_table(pm).take(i as int),
        decreases defaults@.len() - i,
    {
        let d = &defaults[i];
        assert(d@ == default_spec()[i as int]);
        let keys = eff_keys_of(&d.keys, parsed);
        let (label, hint_label) = derive_labels(&keys);
        let b = EffectiveBinding { id: d.id, keys, label, hint_label, hint: d.hint, help: d.help };
        let ghost before = table@;
        table.push(b);
        proof {
            assert(b@ == eff_group(default_spec()[i as int], pm));
            assert(table_view(table@) =~= table_view(before).push(b@));
            assert(eff_table(pm).take(i + 1) =~= eff_table(pm).take(i as int).push(eff_table(pm)[i as int]));
        }
        i = i + 1;
    }
    assert(eff_table(pm).take(defaults@.len() as int) =~= eff_table(pm));
    table
}

/// All keys of a table, group after group.
fn flat_of(table: &Vec<EffectiveBinding>) -> (flat: Vec<(Key, Mods, Action)>)
    ensures
        flat@ == flat_keys(table_view(table@)),
{
    let ghost tv = table_view(table@);
    let mut flat: Vec<(Key, Mods, Action)> = Vec::new();
    let mut g: usize = 0;
    while g < table.len()
        invariant
            0 <= g <= table@.len(),
            tv == table_view(table@),
            flat@ == flat_keys(tv.take(g as int)),
        decreases table@.len() - g,
    {
        let keys = &table[g].keys;
        let ghost base = flat@;
        let mut k: usize = 0;
        while k < keys.len()
            invariant
                0 <= k <= keys@.len(),
                flat@ == base + keys@.take(k as int),
            decreases keys@.len() - k,
        {
            flat.push(keys[k]);
            assert(base + keys@.take(k + 1) =~= (base + keys@.take(k as int)).push(keys@[k as int]));
            k = k + 1;
        }
        proof {
            assert(keys@.take(keys@.len() as int) =~= keys@);
            assert(tv.take(g + 1).drop_last() =~= tv.take(g as int));
            assert(tv.take(g + 1).last() == tv[g as int]);
        }
        g = g + 1;
    }
    assert(tv.take(table@.len() as int) =~= tv);
    flat
}

/// Builds the effective table from the defaults and the `[keys]`
/// overrides: an overridden action's default keys all give way to the
/// configured key, and no key may end up bound twice.
pub fn build(i18n: &I18n, overrides: &Vec<(String, String)>) -> (r: Result<Vec<EffectiveBinding>, String>)
    ensures
        match r {
            Ok(t) => build_spec(*i18n, overrides@) == Ok::<Seq<EffectiveView>, Seq<char>>(table_view(t@)),
            Err(m) => build_spec(*i18n, overrides@) == Err::<Seq<EffectiveView>, Seq<char>>(m@),
        },
{
    let parsed = match parse_override_list(i18n, overrides) {
        Ok(p) => p,
        Err(m) => return Err(m),
    };
    let table = eff_table_of(&parsed);
    let flat = flat_of(&table);
    match first_dup_of(&flat) {
        Some(j) => Err(conflict_message(i18n, flat[j])),
        None => Ok(table),
    }
}

/// The modifiers that count for a key: a character key ignores Shift (the
/// case is in the character itself).
pub open spec fn counted_mods(code: Key, mods: Mods) -> Mods {
    if code is Char {
        Mods { control: mods.control, alt: mods.alt, shift: false }
    } else {
        mods
    }
}

/// The action of the first entry bound to the key, if any.
pub open spec fn find_key(s: Seq<(Key, Mods, Action)>, code: Key, mods: Mods) -> Option<Action>
    decreases s.len(),
{
    if s.len() == 0 {
        None
    } else if s[0].0 == code && s[0].1 == mods {
        Some(s[0].2)
    } else {
        find_key(s.drop_first(), code, mods)
    }
}

/// The action a key press means in a table.
pub open spec fn action_in_spec(t: Seq<EffectiveView>, code: Key, mods: Mods) -> Option<Action> {
    find_key(flat_keys(t), code, counted_mods(code, mods))
}

/// The action a key press means in the table; None for an unbound key.
pub fn action_in(table: &Vec<EffectiveBinding>, code: Key, mods: Mods) -> (r: Option<Action>)
    ensures
        r == action_in_spec(table_view(table@), code, mods),
{
    let m = match code {
        Key::Char(_) => Mods { control: mods.control, alt: mods.alt, shift: false },
        _ => mods,
    };
    let flat = flat_of(table);
    let mut i: usize = 0;
    assert(flat@.skip(0) =~= flat@);
    while i < flat.len()
        invariant
            0 <= i <= flat@.len(),
            m == counted_mods(code, mods),
            flat@ == flat_keys(table_view(table@)),
            find_key(flat@, code, m) == find_key(flat@.skip(i as int), code, m),
        decreases flat@.len() - i,
    {
        proof {
            assert(flat@.skip(i as int)[0] == flat@[i as int]);
            assert(flat@.skip(i as int).drop_first() =~= flat@.skip(i + 1));
        }
        if flat[i].0 == code && flat[i].1 == m {
            return Some(flat[i].2);
        }
        i = i + 1;
    }
    None
}

/// Index of the first group named by `id`, or the length when there is none.
pub open spec fn group_at(t: Seq<EffectiveView>, id: Action) -> int
    decreases t.len(),
{
    if t.len() == 0 {
        0
    } else if t[0].id == id {
        0
    } else {
        1 + group_at(t.drop_first(), id)
    }
}

/// Bounds of `group_at`.
proof fn lemma_group_at(t: Seq<EffectiveView>, id: Action)
    ensures
        0 <= group_at(t, id) <= t.len(),
        group_at(t, id) < t.len() ==> t[group_at(t, id)].id == id,
        forall|j: int| 0 <= j < group_at(t, id) ==> t[j].id != id,
    decreases t.len(),
{
    if t.len() > 0 && t[0].id != id {
        lemma_group_at(t.drop_first(), id);
        assert forall|j: int| 0 <= j < group_at(t, id) implies t[j].id != id by {
            if j > 0 {
                assert(t[j] == t.drop_first()[j - 1]);
            }
        }
    }
}

/// The group named by `id`.
fn group_index(table: &Vec<EffectiveBinding>, id: Action) -> (r: usize)
    ensures
        r == group_at(table_view(table@), id),
        r <= table@.len(),
{
    let ghost tv = table_view(table@);
    proof {
        lemma_group_at(tv, id);
    }
    let mut i: usize = 0;
    while i < table.len()
        invariant
            0 <= i <= table@.len(),
            tv == table_view(table@),
            forall|j: int| 0 <= j < i ==> tv[j].id != id,
            0 <= group_at(tv, id) <= tv.len(),
            group_at(tv, id) < tv.len() ==> tv[group_at(tv, id)].id == id,
            forall|j: int| 0 <= j < group_at(tv, id) ==> tv[j].id != id,
        decreases table@.len() - i,
    {
        assert(tv[i as int].id == table@[i as int].id);
        if table[i].id == id {
            return i;
        }
        i = i + 1;
    }
    i
}

/// The hint bar entries (compact key label, message key), in layout order,
/// of the named groups that have a hint text.
pub open spec fn hint_entries_spec(t: Seq<EffectiveView>, layout: Seq<Action>) -> Seq<(Seq<char>, Seq<char>)>
    decreases layout.len(),
{
    if layout.len() == 0 {
        Seq::empty()
    } else {
        let prev = hint_entries_spec(t, layout.drop_last());
        let g = group_at(t, layout.last());
        if g < t.len() && t[g].hint is Some {
            prev.push((t[g].hint_label, t[g].hint->Some_0))
        } else {
            prev
        }
    }
}

/// The help entries (key label, message key) of the named groups, in layout order.
pub open spec fn help_entries_spec(t: Seq<EffectiveView>, layout: Seq<Action>) -> Seq<(Seq<char>, Seq<char>)>
    decreases layout.len(),
{
    if layout.len() == 0 {
        Seq::empty()
    } else {
        let prev = help_entries_spec(t, layout.drop_last());
        let g = group_at(t, layout.last());
        if g < t.len() {
            prev.push((t[g].label, t[g].help))
        } else {
            prev
        }
    }
}

/// The views of (label, message key) pairs.
pub open spec fn pairs_view(v: Seq<(String, String)>) -> Seq<(Seq<char>, Seq<char>)> {
    v.map_values(|p: (String, String)| (p.0@, p.1@))
}

/// The entries of the groups named by a layout: with `hint`, the hint bar's
/// (groups without a hint text are left out), else the help overlay's.
fn entries_of(table: &Vec<EffectiveBinding>, layout: &Vec<Action>, hint: bool) -> (out: Vec<(String, String)>)
    ensures
        pairs_view(out@) == if hint {
            hint_entries_spec(table_view(table@), layout@)
        } else {
            help_entries_spec(table_view(table@), layout@)
        },
{
    let ghost tv = table_view(table@);
    let mut out: Vec<(String, String)> = Vec::new();
    let mut i: usize = 0;
    while i < layout.len()
        invariant
            0 <= i <= layout@.len(),
            tv == table_view(table@),
            pairs_view(out@) == if hint {
                hint_entries_spec(tv, layout@.take(i as int))
            } else {
                help_entries_spec(tv, layout@.take(i as int))
            },
        decreases layout@.len() - i,
    {
        proof {
            assert(layout@.take(i + 1).drop_last() =~= layout@.take(i as int));
            assert(layout@.take(i + 1).last() == layout@[i as int]);
        }
        let g = group_index(table, layout[i]);
        let ghost before = out@;
        if g < table.len() {
            let b = &table[g];
            assert(tv[g as int] == b@);
            if hint {
                if let Some(h) = b.hint {
                    out.push((crate::text::copy_string(&b.hint_label), String::from_str(h)));
                    assert(pairs_view(out@) =~= pairs_view(before).push((b.hint_label@, h@)));
                }
            } else {
                out.push((crate::text::copy_string(&b.label), String::from_str(b.help)));
                assert(pairs_view(out@) =~= pairs_view(before).push((b.label@, b.help@)));
            }
        }
        i = i + 1;
    }
    assert(layout@.take(layout@.len() as int) =~= layout@);
    out
}

/// The hint bar entries: (compact key label, message key), in display order.
pub fn hint_entries(table: &Vec<EffectiveBinding>) -> (out: Vec<(String, String)>)
    ensures
        pairs_view(out@) == hint_entries_spec(table_view(table@), hint_layout()),
{
    entries_of(table, &hint_layout_of(), true)
}

/// The two columns of the help overlay: (key label, message key) entries.
pub fn help_columns(table: &Vec<EffectiveBinding>) -> (r: (Vec<(String, String)>, Vec<(String, String)>))
    ensures
        pairs_view(r.0@) == help_entries_spec(table_view(table@), help_left_layout()),
        pairs_view(r.1@) == help_entries_spec(table_view(table@), help_right_layout()),
{
    (entries_of(table, &help_left_of(), false), entries_of(table, &help_right_of(), false))
}

/// A default key list with no modifiers.
pub open spec fn plain_keys(keys: Seq<(Key, Action)>) -> Seq<(Key, Mods, Action)>
    decreases keys.len(),
{
    if keys.len() == 0 {
        Seq::empty()
    } else {
        plain_keys(keys.drop_last()).push((keys.last().0, no_mods(), keys.last().1))
    }
}

/// All default keys with no modifiers, group after group.
pub open spec fn flat_plain(d: Seq<BindingView>) -> Seq<(Key, Mods, Action)>
    decreases d.len(),
{
    if d.len() == 0 {
        Seq::empty()
    } else {
        flat_plain(d.drop_last()) + plain_keys(d.last().keys)
    }
}

/// Without overrides a group keeps its default keys.
proof fn lemma_eff_keys_plain(keys: Seq<(Key, Action)>)
    ensures
        eff_keys(keys, Map::empty()) == plain_keys(keys),
    decreases keys.len(),
{
    if keys.len() > 0 {
        lemma_eff_keys_plain(keys.drop_last());
    }
}

/// Without overrides the table's keys are the default keys.
proof fn lemma_flat_plain(d: Seq<BindingView>)
    ensures
        flat_keys(d.map_values(|b: BindingView| eff_group(b, Map::empty()))) == flat_plain(d),
    decreases d.len(),
{
    if d.len() > 0 {
        lemma_flat_plain(d.drop_last());
        let t = d.map_values(|b: BindingView| eff_group(b, Map::empty()));
        assert(t.drop_last() =~= d.drop_last().map_values(|b: BindingView| eff_group(b, Map::empty())));
        lemma_eff_keys_plain(d.last().keys);
    } else {
        assert(d.map_values(|b: BindingView| eff_group(b, Map::empty())) =~= Seq::<EffectiveView>::empty());
    }
}

/// The built-in table needs no configuration: with no overrides it builds
/// without error, and it is the defaults with their derived labels.
pub proof fn law_defaults_build(i: I18n)
    ensures
        build_spec(i, Seq::<(String, String)>::empty()) == Ok::<Seq<EffectiveView>, Seq<char>>(
            eff_table(Map::empty()),
        ),
{
    assert(parse_overrides(Seq::<(String, String)>::empty()) == Ok::<Map<Action, (Key, Mods)>, OverrideFault>(
        Map::empty(),
    ));
    lemma_flat_plain(default_spec());
    let d = default_spec();
    let n = no_mods();
    let f = seq![
        (Key::Char('h'), n, Action::TakeLocal),
        (Key::Left, n, Action::TakeLocal),
        (Key::Char('l'), n, Action::TakeRemote),
        (Key::Right, n, Action::TakeRemote),
        (Key::Char('x'), n, Action::IgnoreChunk),
        (Key::Char('u'), n, Action::UndoChunk),
        (Key::Char('U'), n, Action::UndoFile),
        (Key::Char('e'), n, Action::EditChunk),
        (Key::Char('a'), n, Action::ApplyNonConflict),
        (Key::Char('w'), n, Action::WriteFile),
        (Key::Char('q'), n, Action::Quit),
        (Key::Char('j'), n, Action::NextChange),
        (Key::Down, n, Action::NextChange),
        (Key::Char('k'), n, Action::PrevChange),
        (Key::Up, n, Action::PrevChange),
        (Key::Char('n'), n, Action::NextConflict),
        (Key::Char('p'), n, Action::PrevConflict),
        (Key::Tab, n, Action::NextFile),
        (Key::Char('z'), n, Action::ToggleFold),
        (Key::Char('y'), n, Action::CopyChunk),
        (Key::Char('Y'), n, Action::CopyFile),
        (Key::Char('H'), n, Action::CopyLocal),
        (Key::Char('L'), n, Action::CopyRemote),
        (Key::Char('?'), n, Action::Help),
    ];
    assert(flat_plain(d) =~= f) by {
        reveal_with_fuel(flat_plain, 17);
        reveal_with_fuel(plain_keys, 5);
    }
    assert(dup_in(f, 24) is None) by {
        reveal_with_fuel(dup_in, 25);
        reveal_with_fuel(bound_before, 25);
    }
}

/// Without a repeated key among the first `n` entries, no two of them share a key.
proof fn lemma_no_dup(s: Seq<(Key, Mods, Action)>, n: int)
    requires
        0 <= n <= s.len(),
        dup_in(s, n) is None,
    ensures
        forall|i: int, j: int| 0 <= i < j < n ==> !((#[trigger] s[i]).0 == (#[trigger] s[j]).0 && s[i].1 == s[j].1),
    decreases n,
{
    if n > 0 {
        lemma_no_dup(s, n - 1);
        lemma_bound_before(s, n - 1, s[n - 1].0, s[n - 1].1);
    }
}

/// The first entry with a key decides what the key does.
proof fn lemma_find_first(s: Seq<(Key, Mods, Action)>, j: int, k: Key, m: Mods)
    requires
        0 <= j < s.len(),
        s[j].0 == k && s[j].1 == m,
        forall|i: int| 0 <= i < j ==> !((#[trigger] s[i]).0 == k && s[i].1 == m),
    ensures
        find_key(s, k, m) == Some(s[j].2),
    decreases j,
{
    if j > 0 {
        let r = s.drop_first();
        assert forall|i: int| 0 <= i < j - 1 implies !((#[trigger] r[i]).0 == k && r[i].1 == m) by {
            assert(r[i] == s[i + 1]);
        }
        assert(!(s[0].0 == k && s[0].1 == m));
        lemma_find_first(r, j - 1, k, m);
    }
}

/// Every key of a table that built is a key of its own action: pressing
/// it (with modifiers that count as its own) dispatches that action.
pub proof fn law_bound_keys_dispatch(i: I18n, overrides: Seq<(String, String)>, t: Seq<EffectiveView>)
    requires
        build_spec(i, overrides) == Ok::<Seq<EffectiveView>, Seq<char>>(t),
    ensures
        forall|j: int, m: Mods|
            0 <= j < flat_keys(t).len() && counted_mods(flat_keys(t)[j].0, m) == flat_keys(t)[j].1 ==> #[trigger] action_in_spec(
                t,
                flat_keys(t)[j].0,
                m,
            ) == Some(flat_keys(t)[j].2),
{
    let f = flat_keys(t);
    lemma_no_dup(f, f.len() as int);
    assert forall|j: int, m: Mods|
        0 <= j < f.len() && counted_mods(f[j].0, m) == f[j].1 implies #[trigger] action_in_spec(t, f[j].0, m) == Some(
            f[j].2,
        ) by {
        assert forall|i: int| 0 <= i < j implies !((#[trigger] f[i]).0 == f[j].0 && f[i].1 == f[j].1) by {}
        lemma_find_first(f, j, f[j].0, f[j].1);
    }
}

/// How many entries of a key list are bound to `a`.
pub open spec fn count_action(s: Seq<(Key, Mods, Action)>, a: Action) -> nat
    decreases s.len(),
{
    if s.len() == 0 {
        0
    } else {
        count_action(s.drop_last(), a) + if s.last().2 == a {
            1nat
        } else {
            0nat
        }
    }
}

/// The actions of a default key list.
pub open spec fn actions_of(keys: Seq<(Key, Action)>) -> Seq<Action> {
    keys.map_values(|p: (Key, Action)| p.1)
}

/// An override takes the place of all default keys of its action: in a
/// group, every key of an overridden action is the configured one, such an
/// action is bound exactly once if the group had it (and not at all
/// otherwise), and every other action keeps each of its default keys, with
/// no modifier and nothing else.
pub proof fn law_override_replaces_defaults(keys: Seq<(Key, Action)>, p: Map<Action, (Key, Mods)>)
    ensures
        forall|j: int|
            0 <= j < eff_keys(keys, p).len() && p.dom().contains(#[trigger] eff_keys(keys, p)[j].2) ==> (
            eff_keys(keys, p)[j].0, eff_keys(keys, p)[j].1) == p[eff_keys(keys, p)[j].2],
        forall|j: int|
            0 <= j < eff_keys(keys, p).len() && !p.dom().contains(#[trigger] eff_keys(keys, p)[j].2) ==> eff_keys(
                keys,
                p,
            )[j].1 == no_mods() && keys.contains((eff_keys(keys, p)[j].0, eff_keys(keys, p)[j].2)),
        forall|i: int|
            0 <= i < keys.len() && !p.dom().contains(#[trigger] keys[i].1) ==> eff_keys(keys, p).contains(
                (keys[i].0, no_mods(), keys[i].1),
            ),
        forall|a: Action|
            #![trigger count_action(eff_keys(keys, p), a)]
            p.dom().contains(a) ==> count_action(eff_keys(keys, p), a) == if actions_of(keys).contains(a) {
                1nat
            } else {
                0nat
            },
    decreases keys.len(),
{
    let e = eff_keys(keys, p);
    if keys.len() == 0 {
        assert(actions_of(keys) =~= Seq::<Action>::empty());
    } else {
        let prev = keys.drop_last();
        law_override_replaces_defaults(prev, p);
        let pe = eff_keys(prev, p);
        let last = keys.last();
        assert(actions_of(prev) =~= keys.drop_last().map_values(|q: (Key, Action)| q.1));
        assert(actions_of(keys) =~= actions_of(prev).push(last.1));
        assert(e == pe || e == pe.push(e.last()));
        assert forall|q: (Key, Action)| prev.contains(q) implies keys.contains(q) by {
            let w = choose|w: int| 0 <= w < prev.len() && prev[w] == q;
            assert(keys[w] == q);
        }
        assert(keys[keys.len() - 1] == last);
        assert forall|i: int| 0 <= i < keys.len() && !p.dom().contains(#[trigger] keys[i].1) implies e.contains(
            (keys[i].0, no_mods(), keys[i].1),
        ) by {
            if i < keys.len() - 1 {
                assert(prev[i] == keys[i]);
                let w = choose|w: int| 0 <= w < pe.len() && pe[w] == (prev[i].0, no_mods(), prev[i].1);
                assert(e[w] == pe[w]);
            } else {
                assert(e[e.len() - 1] == (keys[i].0, no_mods(), keys[i].1));
            }
        }
        assert forall|j: int| 0 <= j < e.len() && !p.dom().contains(#[trigger] e[j].2) implies e[j].1 == no_mods()
            && keys.contains((e[j].0, e[j].2)) by {
            if j < pe.len() {
                assert(e[j] == pe[j]);
            } else {
                assert(keys[keys.len() - 1] == (e[j].0, e[j].2));
            }
        }
        assert forall|j: int| 0 <= j < e.len() && p.dom().contains(#[trigger] e[j].2) implies (e[j].0, e[j].1)
            == p[e[j].2] by {
            if j < pe.len() {
                assert(e[j] == pe[j]);
            }
        }
        assert forall|a: Action| p.dom().contains(a) implies #[trigger] count_action(e, a) == if actions_of(
            keys,
        ).contains(a) {
            1nat
        } else {
            0nat
        } by {
            assert(count_action(pe, a) == if actions_of(prev).contains(a) {
                1nat
            } else {
                0nat
            });
            if p.dom().contains(last.1) && actions_of(prev).contains(last.1) {
                assert(e == pe);
            } else {
                let x = if p.dom().contains(last.1) {
                    (p[last.1].0, p[last.1].1, last.1)
                } else {
                    (last.0, no_mods(), last.1)
                };
                assert(e == pe.push(x));
                assert(e.drop_last() =~= pe);
                assert(e.last() == x);
                assert(count_action(e, a) == count_action(pe, a) + if x.2 == a {
                    1nat
                } else {
                    0nat
                });
            }
            if actions_of(keys).contains(a) && !actions_of(prev).contains(a) {
                assert(last.1 == a) by {
                    let w = choose|w: int| 0 <= w < actions_of(keys).len() && actions_of(keys)[w] == a;
                    if w < prev.len() {
                        assert(actions_of(prev)[w] == a);
                    }
                }
            }
            if last.1 == a {
                assert(actions_of(keys)[keys.len() - 1] == a);
            }
            if actions_of(prev).contains(a) {
                let w = choose|w: int| 0 <= w < actions_of(prev).len() && actions_of(prev)[w] == a;
                assert(actions_of(keys)[w] == a);
            }
        }
    }
}


/// Whether a key is shown by a name that a key description accepts back:
/// the named keys other than the arrows (which show as arrows), the space
/// bar, and the function keys F1 to F12.
pub open spec fn shown_by_name(k: Key) -> bool {
    match k {
        Key::Tab | Key::Enter | Key::Esc | Key::Backspace | Key::Home | Key::End | Key::PageUp
        | Key::PageDown | Key::Delete | Key::Insert => true,
        Key::Char(c) => c == ' ',
        Key::F(n) => 1 <= n <= 12,
        _ => false,
    }
}

/// A text without the separator is one piece.
proof fn lemma_split_without_sep(s: Seq<char>, sep: char)
    requires
        forall|i: int| 0 <= i < s.len() ==> s[i] != sep,
    ensures
        split_state(s, sep) == (Seq::<Seq<char>>::empty(), s),
    decreases s.len(),
{
    if s.len() > 0 {
        lemma_split_without_sep(s.drop_last(), sep);
        assert(s.drop_last().push(s.last()) =~= s);
    }
}

/// A text that starts and ends with something other than white space is
/// its own trimmed form.
proof fn lemma_trim_plain(s: Seq<char>)
    requires
        s.len() > 0,
        !is_ws(s[0]),
        !is_ws(s.last()),
    ensures
        trim_ws(s) == s,
{
}

/// A description that is one name, without `+`, white space at its ends or
/// modifiers, reads as the key that name stands for.
proof fn lemma_parse_single_name(s: Seq<char>)
    requires
        s.len() > 0,
        forall|i: int| 0 <= i < s.len() ==> s[i] != '+',
        !is_ws(s[0]),
        !is_ws(s.last()),
    ensures
        key_parts(s) == seq![s],
        parse_key_spec(s) == match key_named(s) {
            Some(k) => Some((k, no_mods())),
            None => None,
        },
{
    lemma_split_without_sep(s, '+');
    lemma_trim_plain(s);
    assert(split_on(s, '+') =~= seq![s]);
    assert(key_parts(s) =~= seq![s]);
    assert(key_parts(s).drop_last() =~= Seq::<Seq<char>>::empty());
}

/// A digit's character reads back as the digit.
proof fn lemma_digit_char(d: nat)
    requires
        d < 10,
    ensures
        '0' <= crate::text::digit_char(d) <= '9',
        crate::ui::theme::digit_value(crate::text::digit_char(d)) == d,
{
}

/// Decimal digits read back as their number.
proof fn lemma_decimal_digits(n: nat)
    ensures
        decimal(n).len() >= 1,
        crate::ui::theme::all_digits(decimal(n)),
        crate::ui::theme::digits_value(decimal(n)) == n,
    decreases n,
{
    if n >= 10 {
        lemma_decimal_digits(n / 10);
        lemma_digit_char((n % 10) as nat);
        let d = decimal(n / 10);
        assert(decimal(n).drop_last() =~= d);
        assert(decimal(n).last() == crate::text::digit_char((n % 10) as nat));
        assert(n == (n / 10) * 10 + n % 10) by (nonlinear_arith);
        assert(crate::ui::theme::digits_value(decimal(n)) == crate::ui::theme::digits_value(d) * 10
            + crate::ui::theme::digit_value(decimal(n).last()));
    } else {
        lemma_digit_char(n);
        assert(decimal(n).drop_last() =~= Seq::<char>::empty());
        assert(crate::ui::theme::digits_value(decimal(n)) == crate::ui::theme::digits_value(Seq::<char>::empty()) * 10
            + crate::ui::theme::digit_value(decimal(n).last()));
    }
}

/// Where the key words differ: first letters, second letters and lengths.
proof fn lemma_key_word_shapes()
    ensures
        "enter"@[0] != "right"@[0],
        "space"@[0] != "right"@[0] && "space"@[0] != "enter"@[0],
        "delete"@[0] != "return"@[0] && "delete"@[0] != "escape"@[0] && "delete"@[0] != "pageup"@[0],
        "insert"@[0] != "return"@[0] && "insert"@[0] != "escape"@[0] && "insert"@[0] != "pageup"@[0]
            && "insert"@[0] != "delete"@[0],
        "pageup"@[0] != "return"@[0] && "pageup"@[0] != "escape"@[0],
        "home"@[0] != "left"@[0] && "home"@[0] != "down"@[0],
        "end"@[0] != "tab"@[0] && "end"@[1] != "esc"@[1],
        "esc"@[0] != "tab"@[0],
        "pagedown"@.len() != "pageup"@.len(),
        "backspace"@.len() == 9,
        "end"@.len() == 3 && "enter"@.len() == 5 && "delete"@.len() == 6 && "down"@.len() == 4,
{
    reveal_strlit("left");
    reveal_strlit("right");
    reveal_strlit("down");
    reveal_strlit("tab");
    reveal_strlit("enter");
    reveal_strlit("return");
    reveal_strlit("esc");
    reveal_strlit("escape");
    reveal_strlit("space");
    reveal_strlit("backspace");
    reveal_strlit("home");
    reveal_strlit("end");
    reveal_strlit("pageup");
    reveal_strlit("pagedown");
    reveal_strlit("delete");
    reveal_strlit("insert");
}

/// Every key shown by a name reads back from what is shown for it: the
/// description that `key_display` writes for the key alone parses to that
/// key, with no modifiers.
pub proof fn law_key_names_round_trip(k: Key)
    requires
        shown_by_name(k),
    ensures
        parse_key_spec(key_display_spec(k, no_mods(), false)) == Some((k, no_mods())),
{
    let s = key_display_spec(k, no_mods(), false);
    assert(s =~= key_base(k, false));
    reveal_strlit("Tab");
    reveal_strlit("Enter");
    reveal_strlit("Esc");
    reveal_strlit("Backspace");
    reveal_strlit("Home");
    reveal_strlit("End");
    reveal_strlit("PageUp");
    reveal_strlit("PageDown");
    reveal_strlit("Delete");
    reveal_strlit("Insert");
    reveal_strlit("Space");
    reveal_strlit("left");
    reveal_strlit("right");
    reveal_strlit("up");
    reveal_strlit("down");
    reveal_strlit("tab");
    reveal_strlit("enter");
    reveal_strlit("return");
    reveal_strlit("esc");
    reveal_strlit("escape");
    reveal_strlit("space");
    reveal_strlit("backspace");
    reveal_strlit("home");
    reveal_strlit("end");
    reveal_strlit("pageup");
    reveal_strlit("pagedown");
    reveal_strlit("delete");
    reveal_strlit("del");
    reveal_strlit("insert");
    if let Key::F(n) = k {
        lemma_decimal_digits(n as nat);
        let d = decimal(n as nat);
        assert(s =~= seq!['F'] + d);
        assert forall|i: int| 0 <= i < s.len() implies s[i] != '+' by {
            if i > 0 {
                assert(s[i] == d[i - 1]);
            }
        }
        assert(s.last() == d.last());
        lemma_parse_single_name(s);
        let l = lower(s);
        assert(l =~= seq!['f'] + d) by {
            assert forall|i: int| 0 <= i < l.len() implies l[i] == (seq!['f'] + d)[i] by {
                if i > 0 {
                    assert(s[i] == d[i - 1]);
                }
            }
        }
        assert(l[0] == 'f');
        assert(named_key(l) is None);
        assert(l.drop_first() =~= d);
        assert(crate::ui::theme::parse_u8_spec(d) == Some(n));
    } else {
        lemma_parse_single_name(s);
        let l = lower(s);
        match k {
            Key::Tab => assert(l =~= "tab"@),
            Key::Enter => assert(l =~= "enter"@),
            Key::Esc => assert(l =~= "esc"@),
            Key::Backspace => assert(l =~= "backspace"@),
            Key::Home => assert(l =~= "home"@),
            Key::End => assert(l =~= "end"@),
            Key::PageUp => assert(l =~= "pageup"@),
            Key::PageDown => assert(l =~= "pagedown"@),
            Key::Delete => assert(l =~= "delete"@),
            Key::Insert => assert(l =~= "insert"@),
            _ => assert(l =~= "space"@),
        }
        lemma_key_word_shapes();
    }
}

} // verus!
