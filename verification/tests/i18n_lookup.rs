use git_pincer::i18n::{init, lang_of_locale, parse, tr, tr_f, Catalog, I18n, Lang};

fn english() -> I18n {
    let en = parse("menu.no_output = (no output)\nmenu.failed = git {cmd} failed\n");
    I18n::new(en, Catalog::empty())
}

#[test]
fn parses_conf_lines() {
    let map = parse("# comment\n\na.b = hello = world\nc = line1\\nline2\n");
    assert_eq!(map.get("a.b").unwrap(), "hello = world");
    assert_eq!(map.get("c").unwrap(), "line1\nline2");
    assert_eq!(map.entries.len(), 2);
}

#[test]
fn lookup_falls_back() {
    let i = english();
    assert_eq!(tr(&i, "no.such.key"), "no.such.key");
    assert_eq!(tr(&i, "menu.no_output"), "(no output)");
    assert_eq!(tr_f(&i, "menu.failed", &vec![("cmd".to_owned(), "pull".to_owned())]), "git pull failed");
}

#[test]
fn chinese_falls_back_to_english_then_key() {
    let en = parse("a = A\nb = B\n");
    let zh = parse("a = 甲\n");
    let mut i = I18n::new(en, zh);
    init(&mut i, Lang::Zh);
    init(&mut i, Lang::En);
    assert_eq!(i.lang, Some(Lang::Zh));
    assert_eq!(tr(&i, "a"), "甲");
    assert_eq!(tr(&i, "b"), "B");
    assert_eq!(tr(&i, "c"), "c");
}

#[test]
fn later_entries_replace_earlier_ones() {
    let c = parse("k = one\nk = two\nbad line\n");
    assert_eq!(c.get("k").unwrap(), "two");
    assert!(c.get("bad line").is_none());
}

#[test]
fn placeholders_are_replaced_everywhere() {
    let i = I18n::new(parse("m = {n} of {n}, {x}\n"), Catalog::empty());
    let args = vec![("n".to_owned(), "3".to_owned()), ("x".to_owned(), "ok".to_owned())];
    assert_eq!(tr_f(&i, "m", &args), "3 of 3, ok");
}

#[test]
fn zh_locales_pick_chinese() {
    assert_eq!(lang_of_locale(&Some("zh-CN".to_owned())), Lang::Zh);
    assert_eq!(lang_of_locale(&Some("ZH_tw".to_owned())), Lang::Zh);
    assert_eq!(lang_of_locale(&Some("en-US".to_owned())), Lang::En);
    assert_eq!(lang_of_locale(&None), Lang::En);
}
