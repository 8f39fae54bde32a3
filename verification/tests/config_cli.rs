use git_pincer::cli::{Cli, LangArg, ThemeArg};
use git_pincer::config::{parse_hex, resolve_unix_path, Config};
use git_pincer::i18n::Lang;

#[test]
fn hex_parsing() {
    assert_eq!(parse_hex("#ff7a2f"), Some((0xff, 0x7a, 0x2f)));
    assert_eq!(parse_hex("#FFF"), None);
    assert_eq!(parse_hex("ff7a2f"), None);
    assert_eq!(parse_hex("#gg0000"), None);
}

#[test]
fn hex_parsing_takes_exactly_six_hex_digits() {
    assert_eq!(parse_hex("#+f0000"), None);
    assert_eq!(parse_hex("#+f+f+f"), None);
    assert_eq!(parse_hex("#-f0000"), None);
    assert_eq!(parse_hex("#aBcDeF"), Some((0xab, 0xcd, 0xef)));
    assert_eq!(parse_hex("#é0000"), None);
    assert_eq!(parse_hex("#ff7a2f0"), None);
}

#[test]
fn unix_path_resolution() {
    let xdg = resolve_unix_path(Some("/xdg".to_owned()), Some("/home/z".to_owned()));
    assert_eq!(xdg.as_deref(), Some("/xdg/git-pincer/config.toml"));
    let fallback = resolve_unix_path(None, Some("/home/z".to_owned()));
    assert_eq!(fallback.as_deref(), Some("/home/z/.config/git-pincer/config.toml"));
    let empty_xdg = resolve_unix_path(Some(String::new()), Some("/home/z".to_owned()));
    assert_eq!(empty_xdg.as_deref(), Some("/home/z/.config/git-pincer/config.toml"));
    assert_eq!(resolve_unix_path(None, None), None);
}

#[test]
fn trailing_slash_is_not_doubled() {
    let p = resolve_unix_path(Some("/xdg/".to_owned()), None);
    assert_eq!(p.as_deref(), Some("/xdg/git-pincer/config.toml"));
}

fn cli(theme: ThemeArg, lang: LangArg) -> Cli {
    Cli { command: None, repo: None, verbose: false, theme, lang }
}

#[test]
fn command_line_beats_configuration() {
    let mut config = Config::empty();
    config.ui.theme = Some(ThemeArg::Light);
    config.ui.verbose = Some(true);
    let s = cli(ThemeArg::Dark, LangArg::Auto).settings(&config.ui, true);
    assert!(!s.light);
    assert!(s.verbose);
    assert_eq!(s.dir, ".");
    let s = cli(ThemeArg::Auto, LangArg::Auto).settings(&config.ui, false);
    assert!(s.light);
    let s = cli(ThemeArg::Auto, LangArg::Auto).settings(&Config::empty().ui, true);
    assert!(s.light);
    assert!(!s.verbose);
}

#[test]
fn languages_by_precedence() {
    assert_eq!(cli(ThemeArg::Auto, LangArg::Zh).cli_lang(), Some(Lang::Zh));
    assert_eq!(cli(ThemeArg::Auto, LangArg::Auto).cli_lang(), None);
    assert_eq!(Cli::config_lang(Some(LangArg::En), Lang::Zh), Lang::En);
    assert_eq!(Cli::config_lang(Some(LangArg::Auto), Lang::Zh), Lang::Zh);
    assert_eq!(Cli::config_lang(None, Lang::En), Lang::En);
}
