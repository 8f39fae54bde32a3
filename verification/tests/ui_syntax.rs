use git_pincer::app::{FileMerge, Side};
use git_pincer::ui::syntax::{file_colors, line_spans, maple, pane_colors, result_colors, syntax_enabled, theme_string};
use git_pincer::ui::theme::{term_color, TermColor};

#[test]
fn syntax_matches_extension_or_falls_back() {
    let rs = FileMerge::from_three_way(
        "demo.rs".to_owned(),
        "fn main() {}\n",
        "fn main() { let a = 1; }\n",
        "fn main() {}\n",
    );
    let colors = file_colors(&rs, false, true);
    let ours = colors.ours.as_ref().unwrap();
    assert!(ours.iter().any(|l| !l.is_empty()));

    let unknown = FileMerge::from_three_way("demo.unknownext".to_owned(), "a\n", "b\n", "a\n");
    let colors = file_colors(&unknown, false, true);
    assert!(colors.ours.is_none());
    assert!(colors.result.is_none());
}

#[test]
fn result_pane_rehighlights_on_revision_change() {
    let mut merge = FileMerge::from_three_way("demo.rs".to_owned(), "a\nb\nc\n", "a\nX\nc\n", "a\nY\nc\n");
    let (before, starts) = result_colors(&merge, false, true);
    assert_eq!(before.unwrap().len(), 3);
    assert_eq!(starts, vec![0, 1, 2]);
    merge.apply(Side::Ours);
    merge.apply(Side::Theirs);
    let (after, starts) = result_colors(&merge, false, true);
    assert_eq!(after.unwrap().len(), 4);
    assert_eq!(starts, vec![0, 1, 3]);
}

#[test]
fn oversized_file_disables_syntax() {
    let text: String = (0..4000).map(|i| format!("l{i}\n")).collect();
    let merge = FileMerge::from_three_way("big.rs".to_owned(), &text, &text, &text);
    assert!(!syntax_enabled(&merge));
    let colors = file_colors(&merge, false, true);
    assert!(colors.ours.is_none() && colors.theirs.is_none() && colors.result.is_none());
    let small = FileMerge::from_three_way("small.rs".to_owned(), "a\n", "b\n", "a\n");
    assert!(syntax_enabled(&small));
}

#[test]
fn plain_text_and_missing_extensions_get_no_colours() {
    let lines = vec!["hello".to_owned()];
    assert!(pane_colors("notes.txt", &lines, false, true).is_none());
    assert!(pane_colors("Makefile.d/.hidden", &lines, false, true).is_none());
    assert!(pane_colors("src/no_extension", &lines, false, true).is_none());
    assert!(pane_colors("src/lib.rs", &lines, true, false).is_some());
}

#[test]
fn line_spans_skip_default_colour_and_cut_at_line_end() {
    let fg = (1, 2, 3);
    // "let x\n": a keyword token, a default-coloured token, and the newline in a colour.
    let toks = vec![(9, 9, 9, 3), (1, 2, 3, 2), (7, 7, 7, 1)];
    let spans = line_spans(5, &toks, fg, true);
    assert_eq!(spans, vec![(TermColor::Rgb(9, 9, 9), (0, 3))]);
    let long = vec![(9, 9, 9, 8)];
    assert_eq!(line_spans(5, &long, fg, false), vec![(term_color(9, 9, 9, false), (0, 5))]);
}

#[test]
fn maple_tables_differ_only_in_colours() {
    let dark = maple(false);
    let light = maple(true);
    assert_eq!(dark.len(), light.len());
    assert!(dark.iter().zip(&light).all(|(d, l)| d.0 == l.0));
    assert_eq!(dark[6], ("string".to_owned(), (0xa4, 0xdf, 0xae)));
    assert_eq!(light[6], ("string".to_owned(), (0x47, 0x8f, 0x14)));
}

#[test]
fn theme_text_lists_default_and_rules() {
    let t = theme_string(&vec![("string".to_owned(), (0xa4, 0xdf, 0x0e))], (0xcb, 0xd5, 0xe1));
    assert_eq!(
        t,
        "<?xml version=\"1.0\" encoding=\"UTF-8\"?><plist version=\"1.0\"><dict><key>settings</key><array>\
         <dict><key>settings</key><dict><key>foreground</key><string>#cbd5e1</string></dict></dict>\
         <dict><key>scope</key><string>string</string><key>settings</key>\
         <dict><key>foreground</key><string>#a4df0e</string></dict></dict></array></dict></plist>"
    );
}
