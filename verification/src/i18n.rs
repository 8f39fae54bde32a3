//! Interface language and message lookup.
//!
//! Message catalogs are `key = value` lines. Lookup falls back from the
//! active language to English, then to the key itself, so a missing
//! translation never fails.

use vstd::prelude::*;

use crate::text::{
    chars_of, chars_view, lemma_chars_view_take, split_once, str_lines, str_lines_of, string_of,
    sub_chars, trim_bounds, trim_ws,
};

verus! {

/// Interface language.
#[derive(Debug, Clone, Copy, PartialEq, Eq, Structural)]
pub enum Lang {
    /// Chinese
    Zh,
    /// English
    En,
}

/// One message of a catalog.
#[derive(Debug, Clone)]
pub struct Entry {
    /// Message key
    pub key: String,
    /// Message text
    pub value: String,
}

/// A message catalog; a later entry for a key replaces an earlier one.
#[derive(Debug, Clone)]
pub struct Catalog {
    /// Entries in the order they were read
    pub entries: Vec<Entry>,
}

/// The map the entries define (later entries win).
pub open spec fn entries_map(es: Seq<Entry>) -> Map<Seq<char>, Seq<char>>
    decreases es.len(),
{
    if es.len() == 0 {
        Map::empty()
    } else {
        entries_map(es.drop_last()).insert(es.last().key@, es.last().value@)
    }
}

impl View for Catalog {
    type V = Map<Seq<char>, Seq<char>>;

    open spec fn view(&self) -> Map<Seq<char>, Seq<char>> {
        entries_map(self.entries@)
    }
}

/// `s` with every occurrence of `pat` replaced by `with`, scanning left to
/// right without overlaps, as `str::replace` does (`pat` is not empty).
pub open spec fn replace_all(s: Seq<char>, pat: Seq<char>, with: Seq<char>) -> Seq<char>
    decreases s.len(),
{
    if pat.len() == 0 || s.len() < pat.len() {
        s
    } else if s.take(pat.len() as int) == pat {
        with + replace_all(s.skip(pat.len() as int), pat, with)
    } else {
        seq![s[0]] + replace_all(s.drop_first(), pat, with)
    }
}

/// One catalog line read into the map: trimmed; blank lines and `#`
/// comments skipped; `key = value` split at the first `=`, both sides
/// trimmed, and `\n` in the value turned into a line feed.
pub open spec fn conf_step(m: Map<Seq<char>, Seq<char>>, line: Seq<char>) -> Map<Seq<char>, Seq<char>> {
    let t = trim_ws(line);
    if t.len() == 0 || t[0] == '#' {
        m
    } else {
        match split_once(t, '=') {
            None => m,
            Some((k, v)) => m.insert(trim_ws(k), replace_all(trim_ws(v), seq!['\\', 'n'], seq!['\n'])),
        }
    }
}

/// All lines read in order.
pub open spec fn conf_fold(lines: Seq<Seq<char>>) -> Map<Seq<char>, Seq<char>>
    decreases lines.len(),
{
    if lines.len() == 0 {
        Map::empty()
    } else {
        conf_step(conf_fold(lines.drop_last()), lines.last())
    }
}

/// The catalog a conf text defines.
pub open spec fn parse_spec(src: Seq<char>) -> Map<Seq<char>, Seq<char>> {
    conf_fold(str_lines(src))
}

/// Whether `s` starts at `i` with `pat`.
fn matches_at(s: &Vec<char>, i: usize, pat: &Vec<char>) -> (b: bool)
    requires
        i <= s@.len(),
    ensures
        b == (i + pat@.len() <= s@.len() && s@.subrange(i as int, i + pat@.len()) == pat@),
{
    if pat.len() > s.len() - i {
        return false;
    }
    let mut j: usize = 0;
    while j < pat.len()
        invariant
            i + pat@.len() <= s@.len(),
            s@.len() == s.len(),
            0 <= j <= pat@.len(),
            forall|m: int| 0 <= m < j ==> s@[i + m] == pat@[m],
        decreases pat@.len() - j,
    {
        if s[i + j] != pat[j] {
            assert(s@.subrange(i as int, i + pat@.len())[j as int] != pat@[j as int]);
            return false;
        }
        j = j + 1;
    }
    assert(s@.subrange(i as int, i + pat@.len()) =~= pat@);
    true
}

/// `s` with every occurrence of `pat` replaced by `with`.
pub fn replace_chars(s: &Vec<char>, pat: &Vec<char>, with: &Vec<char>) -> (out: Vec<char>)
    requires
        pat@.len() > 0,
    ensures
        out@ == replace_all(s@, pat@, with@),
{
    let mut out: Vec<char> = Vec::new();
    let mut i: usize = 0;
    assert(out@ + replace_all(s@.skip(0), pat@, with@) =~= replace_all(s@, pat@, with@)) by {
        assert(s@.skip(0) =~= s@);
    }
    while i < s.len()
        invariant
            pat@.len() > 0,
            0 <= i <= s@.len(),
            out@ + replace_all(s@.skip(i as int), pat@, with@) == replace_all(s@, pat@, with@),
        decreases s@.len() - i,
    {
        let ghost rest = s@.skip(i as int);
        if matches_at(s, i, pat) {
            let ghost before = out@;
            let mut k: usize = 0;
            while k < with.len()
                invariant
                    0 <= k <= with@.len(),
                    out@ == before + with@.take(k as int),
                decreases with@.len() - k,
            {
                out.push(with[k]);
                assert(with@.take(k + 1) =~= with@.take(k as int).push(with@[k as int]));
                k = k + 1;
            }
            proof {
                assert(with@.take(with@.len() as int) =~= with@);
                assert(rest.take(pat@.len() as int) =~= s@.subrange(i as int, i + pat@.len()));
                assert(rest.skip(pat@.len() as int) =~= s@.skip(i + pat@.len()));
                assert(out@ + replace_all(s@.skip(i + pat@.len()), pat@, with@) =~= before
                    + replace_all(rest, pat@, with@));
            }
            i = i + pat.len();
        } else {
            proof {
                if rest.len() >= pat@.len() {
                    assert(rest.take(pat@.len() as int) =~= s@.subrange(i as int, i + pat@.len()));
                }
                assert(rest.drop_first() =~= s@.skip(i + 1));
                assert(rest[0] == s@[i as int]);
            }
            let ghost before = out@;
            out.push(s[i]);
            proof {
                assert(out@ + replace_all(s@.skip(i + 1), pat@, with@) =~= before + replace_all(
                    rest,
                    pat@,
                    with@,
                ));
            }
            i = i + 1;
        }
    }
    assert(s@.skip(s@.len() as int) =~= Seq::<char>::empty());
    out
}

/// A later entry for `k` is all that matters: entries after index `n` that
/// do not mention `k` leave its mapping as it was after the first `n`.
proof fn lemma_entries_tail(es: Seq<Entry>, n: int, k: Seq<char>)
    requires
        0 <= n <= es.len(),
        forall|j: int| n <= j < es.len() ==> #[trigger] es[j].key@ != k,
    ensures
        entries_map(es).dom().contains(k) == entries_map(es.take(n)).dom().contains(k),
        entries_map(es).dom().contains(k) ==> entries_map(es)[k] == entries_map(es.take(n))[k],
    decreases es.len(),
{
    if es.len() > n {
        lemma_entries_tail(es.drop_last(), n, k);
        assert(es.drop_last().take(n) =~= es.take(n));
    } else {
        assert(es.take(n) =~= es);
    }
}

impl Catalog {
    /// A catalog with no messages.
    pub fn empty() -> (c: Catalog)
        ensures
            c@ == Map::<Seq<char>, Seq<char>>::empty(),
    {
        Catalog { entries: Vec::new() }
    }

    /// Adds a message (replacing an earlier one for the same key).
    pub fn insert(&mut self, key: String, value: String)
        ensures
            final(self)@ == old(self)@.insert(key@, value@),
    {
        let ghost before = self.entries@;
        self.entries.push(Entry { key, value });
        assert(self.entries@.drop_last() =~= before);
    }

    /// The message of `key`, if the catalog has one.
    pub fn get(&self, key: &str) -> (r: Option<String>)
        ensures
            match r {
                Some(v) => self@.dom().contains(key@) && v@ == self@[key@],
                None => !self@.dom().contains(key@),
            },
    {
        let k = String::from_str(key);
        let mut i = self.entries.len();
        while i > 0
            invariant
                i <= self.entries@.len(),
                k@ == key@,
                forall|j: int| i <= j < self.entries@.len() ==> #[trigger] self.entries@[j].key@ != key@,
            decreases i,
        {
            if self.entries[i - 1].key == k {
                proof {
                    let es = self.entries@;
                    lemma_entries_tail(es, i as int, key@);
                    assert(es.take(i as int).drop_last() =~= es.take(i - 1));
                }
                return Some(crate::text::copy_string(&self.entries[i - 1].value));
            }
            i = i - 1;
        }
        proof {
            lemma_entries_tail(self.entries@, 0, key@);
            assert(self.entries@.take(0) =~= Seq::<Entry>::empty());
        }
        None
    }
}

/// Parses a conf catalog: one `key = value` per line, `#` comments, and
/// `\n` in values for a line feed.
pub fn parse(src: &str) -> (c: Catalog)
    ensures
        c@ == parse_spec(src@),
{
    let lines = str_lines_of(src);
    let esc = vec!['\\', 'n'];
    let lf = vec!['\n'];
    assert(esc@ =~= seq!['\\', 'n']);
    assert(lf@ =~= seq!['\n']);
    let mut c = Catalog::empty();
    let mut i: usize = 0;
    while i < lines.len()
        invariant
            0 <= i <= lines@.len(),
            chars_view(lines@) == str_lines(src@),
            esc@ == seq!['\\', 'n'],
            lf@ == seq!['\n'],
            c@ == conf_fold(chars_view(lines@).take(i as int)),
        decreases lines@.len() - i,
    {
        proof {
            lemma_chars_view_take(lines@, i as int);
            assert(chars_view(lines@).take(i + 1).drop_last() =~= chars_view(lines@).take(i as int));
        }
        let line = &lines[i];
        let (lo, hi) = trim_bounds(line, 0, line.len());
        assert(line@.subrange(0, line@.len() as int) =~= line@);
        let t = sub_chars(line, lo, hi);
        if t.len() > 0 && t[0] != '#' {
            proof {
                crate::text::lemma_first_index(t@, '=');
            }
            if let Some(eq) = crate::text::find_char(&t, '=') {
                let (klo, khi) = trim_bounds(&t, 0, eq);
                let (vlo, vhi) = trim_bounds(&t, eq + 1, t.len());
                let kc = sub_chars(&t, klo, khi);
                let vc = sub_chars(&t, vlo, vhi);
                let value = replace_chars(&vc, &esc, &lf);
                proof {
                    assert(t@.subrange(0, eq as int) =~= t@.take(eq as int));
                    assert(t@.subrange(eq + 1, t@.len() as int) =~= t@.skip(eq + 1));
                }
                c.insert(string_of(&kc), string_of(&value));
            }
        }
        i = i + 1;
    }
    assert(chars_view(lines@).take(lines@.len() as int) =~= chars_view(lines@));
    c
}

/// The active language and both catalogs.
#[derive(Debug, Clone)]
pub struct I18n {
    /// Language chosen so far; English until one is chosen
    pub lang: Option<Lang>,
    /// English messages (the reference set of keys)
    pub en: Catalog,
    /// Chinese messages
    pub zh: Catalog,
}

/// The message of `key`: the active language's, else the English one, else the key.
pub open spec fn tr_spec(i: I18n, key: Seq<char>) -> Seq<char> {
    let lang = match i.lang {
        Some(l) => l,
        None => Lang::En,
    };
    if lang == Lang::Zh && i.zh@.dom().contains(key) {
        i.zh@[key]
    } else if i.en@.dom().contains(key) {
        i.en@[key]
    } else {
        key
    }
}

/// `text` with `{name}` replaced by `value`.
pub open spec fn fill_one(text: Seq<char>, name: Seq<char>, value: Seq<char>) -> Seq<char> {
    replace_all(text, seq!['{'] + name + seq!['}'], value)
}

/// `text` with `{name}` replaced by the value, for the first `n` arguments in order.
pub open spec fn fill(text: Seq<char>, args: Seq<(String, String)>, n: int) -> Seq<char>
    decreases n,
{
    if n <= 0 {
        text
    } else {
        replace_all(fill(text, args, n - 1), seq!['{'] + args[n - 1].0@ + seq!['}'], args[n - 1].1@)
    }
}

impl I18n {
    /// Message lookup over the given catalogs, no language chosen yet.
    pub fn new(en: Catalog, zh: Catalog) -> (i: I18n)
        ensures
            i.lang is None,
            i.en@ == en@,
            i.zh@ == zh@,
    {
        I18n { lang: None, en, zh }
    }
}

/// Chooses the interface language; only the first choice counts, so the
/// order of calls is the order of precedence.
pub fn init(i18n: &mut I18n, lang: Lang)
    ensures
        final(i18n).lang == if old(i18n).lang is None {
            Some(lang)
        } else {
            old(i18n).lang
        },
        final(i18n).en@ == old(i18n).en@,
        final(i18n).zh@ == old(i18n).zh@,
{
    if i18n.lang.is_none() {
        i18n.lang = Some(lang);
    }
}

/// The message of `key` in the active language, falling back to English,
/// then to the key itself.
pub fn tr(i18n: &I18n, key: &str) -> (r: String)
    ensures
        r@ == tr_spec(*i18n, key@),
{
    let lang = match i18n.lang {
        Some(l) => l,
        None => Lang::En,
    };
    if lang == Lang::Zh {
        if let Some(v) = i18n.zh.get(key) {
            return v;
        }
    }
    match i18n.en.get(key) {
        Some(v) => v,
        None => String::from_str(key),
    }
}

/// The message of `key` with each `{name}` replaced by its value.
pub fn tr_f(i18n: &I18n, key: &str, args: &Vec<(String, String)>) -> (r: String)
    ensures
        r@ == fill(tr_spec(*i18n, key@), args@, args@.len() as int),
{
    let mut text = chars_of(tr(i18n, key).as_str());
    let mut k: usize = 0;
    while k < args.len()
        invariant
            0 <= k <= args@.len(),
            text@ == fill(tr_spec(*i18n, key@), args@, k as int),
        decreases args@.len() - k,
    {
        let mut pat: Vec<char> = vec!['{'];
        let name = chars_of(args[k].0.as_str());
        let mut j: usize = 0;
        while j < name.len()
            invariant
                0 <= j <= name@.len(),
                pat@ == seq!['{'] + name@.take(j as int),
            decreases name@.len() - j,
        {
            pat.push(name[j]);
            assert(name@.take(j + 1) =~= name@.take(j as int).push(name@[j as int]));
            j = j + 1;
        }
        pat.push('}');
        assert(name@.take(name@.len() as int) =~= name@);
        assert(pat@ =~= seq!['{'] + args@[k as int].0@ + seq!['}']);
        let value = chars_of(args[k].1.as_str());
        text = replace_chars(&text, &pat, &value);
        k = k + 1;
    }
    string_of(&text)
}

/// Whether a locale names Chinese (starts with `zh`, in any case).
pub open spec fn is_zh_locale(l: Seq<char>) -> bool {
    l.len() >= 2 && (l[0] == 'z' || l[0] == 'Z') && (l[1] == 'h' || l[1] == 'H')
}

/// The language of a locale: Chinese for a `zh` locale (such as zh-CN),
/// English otherwise or when there is none.
pub fn lang_of_locale(locale: &Option<String>) -> (l: Lang)
    ensures
        l == (match locale {
            Some(s) => if is_zh_locale(s@) {
                Lang::Zh
            } else {
                Lang::En
            },
            None => Lang::En,
        }),
{
    match locale {
        Some(s) => {
            let c = chars_of(s.as_str());
            if c.len() >= 2 && (c[0] == 'z' || c[0] == 'Z') && (c[1] == 'h' || c[1] == 'H') {
                Lang::Zh
            } else {
                Lang::En
            }
        },
        None => Lang::En,
    }
}

/// The locale of the system (`sys_locale::get_locale`). What it returns
/// depends on the environment, so nothing is claimed of it.
#[verifier::external_body]
fn system_locale() -> (l: Option<String>) {
    sys_locale::get_locale()
}

/// The language of the system locale.
pub fn detect() -> (l: Lang) {
    let locale = system_locale();
    lang_of_locale(&locale)
}

} // verus!
