use git_pincer::merge::{ChunkKind, MergeChunk};
use git_pincer::ui::art::{apply_sgr, parse_ansi_art, ArtCell};
use git_pincer::ui::highlight::{chunk_emphasis, line_emphasis, side_emphasis, EMPH_MAX_LINES};
use git_pincer::ui::menu::{
    block_title, display_width, divider_sides, exp_note, gauge_cells, panel_width, place_panel, spread_gap,
    tint_logo, Area, GAUGE_CELLS,
};
use git_pincer::ui::rows::ChangeType;
use git_pincer::ui::theme::{term_color, TermColor, Theme};

fn chunk(kind: ChunkKind, base: &[&str], ours: &[&str], theirs: &[&str]) -> MergeChunk {
    let v = |s: &[&str]| s.iter().map(|t| (*t).to_owned()).collect();
    MergeChunk { id: 0, kind, base: v(base), ours: v(ours), theirs: v(theirs), base_start: 1, ours_start: 1, theirs_start: 1 }
}

#[test]
fn emphasis_against_base() {
    let c = chunk(ChunkKind::Conflict, &["let a = 1;"], &["let a = 2;"], &["let b = 1;"]);
    let e = chunk_emphasis(&c);
    assert_eq!(e.ours[0], vec![(8, 10)]);
    assert_eq!(e.theirs[0], vec![(4, 5)]);
}

#[test]
fn empty_base_falls_back_to_cross_compare() {
    let c = chunk(ChunkKind::Conflict, &[], &["hello world"], &["hello rust"]);
    let e = chunk_emphasis(&c);
    assert_eq!(e.ours[0], vec![(6, 11)]);
    assert_eq!(e.theirs[0], vec![(6, 10)]);
}

#[test]
fn whitespace_gaps_are_bridged() {
    let e = line_emphasis("prefix stays aa bb", "prefix stays xx yy");
    assert_eq!(e, vec![(13, 18)]);
}

#[test]
fn mostly_changed_line_degrades_to_band() {
    let e = line_emphasis("old", "an entirely different line");
    assert!(e.is_empty());
}

#[test]
fn oversized_chunk_degrades_to_empty() {
    let lines: Vec<String> = (0..=EMPH_MAX_LINES).map(|i| format!("l{i}")).collect();
    let refs: Vec<&str> = lines.iter().map(String::as_str).collect();
    let c = chunk(ChunkKind::Conflict, &["a"], &refs, &["b"]);
    let e = chunk_emphasis(&c);
    assert!(e.ours.iter().all(Vec::is_empty));
    assert!(e.theirs.iter().all(Vec::is_empty));
}

#[test]
fn emphasis_ranges_are_bytes_of_the_new_line() {
    assert_eq!(line_emphasis("你好 world", "你好 rust"), vec![(7, 11)]);
    let stable = chunk(ChunkKind::Stable, &["a"], &["a"], &["a"]);
    let e = chunk_emphasis(&stable);
    assert_eq!((e.ours.len(), e.theirs.len()), (1, 1));
    assert!(e.ours[0].is_empty());
    let base = vec!["x = 1".to_owned(), "y = 2".to_owned()];
    let side = vec!["x = 1".to_owned(), "y = 3".to_owned(), "z".to_owned()];
    let s = side_emphasis(&base, &side);
    assert_eq!(s.len(), 3);
    assert!(s[0].is_empty());
    assert_eq!(s[1], vec![(4, 5)]);
}

#[test]
fn both_variants_provide_bands() {
    for theme in [Theme::tokyo_night(true), Theme::light(true)] {
        assert!(theme.band_bg(ChangeType::Conflict, false).is_some());
        assert!(theme.band_bg(ChangeType::Unchanged, false).is_none());
    }
    assert!(Theme::select(true, false).light);
    assert!(!Theme::select(false, false).light);
}

#[test]
fn theme_colours_follow_terminal_depth() {
    let dark = Theme::tokyo_night(true);
    assert_eq!(dark.red, TermColor::Rgb(224, 108, 117));
    assert_eq!(dark.band_bg(ChangeType::Modified, true), Some(TermColor::Rgb(52, 80, 132)));
    assert_eq!(dark.accent(ChangeType::Deleted), dark.fg_dim);
    let plain = Theme::tokyo_night(false);
    assert_eq!(plain.badge_fg, TermColor::Indexed(233));
    assert_eq!(term_color(255, 0, 0, false), TermColor::Indexed(196));
    assert_eq!(Theme::light(true).emph_bg(ChangeType::Added, false), TermColor::Rgb(185, 220, 172));
}

#[test]
fn gauge_spans_total_cells() {
    for filled in [0, 3, GAUGE_CELLS] {
        let (full, empty) = gauge_cells(filled);
        assert_eq!(full.chars().count() + empty.chars().count(), GAUGE_CELLS);
        assert!(full.chars().all(|c| c == '█'));
    }
}

#[test]
fn spread_line_fills_inner_width() {
    let used = display_width("HP  ") + display_width("████") + display_width("改动 ×2");
    let gap = spread_gap(used, 30);
    assert_eq!(used + gap, 30);
    assert_eq!(spread_gap(40, 30), 1);
}

#[test]
fn parses_ansi_half_block_art() {
    let src = "\x1b[0m \x1b[38;2;10;20;30m\x1b[48;2;40;50;60m▀\x1b[0m \n\x1b[0m \x1b[0m ";
    let lines = parse_ansi_art(src, true);
    assert_eq!(lines.len(), 1, "a trailing transparent line is dropped");
    let cells = &lines[0];
    assert_eq!(cells.len(), 3);
    assert_eq!(cells[1].ch, '▀');
    assert_eq!(cells[1].fg, Some(TermColor::Rgb(10, 20, 30)));
    assert_eq!(cells[1].bg, Some(TermColor::Rgb(40, 50, 60)));
    assert!(cells[0].fg.is_none(), "a transparent cell has no colour");
}

#[test]
fn plain_text_art_is_not_trimmed() {
    let lines = parse_ansi_art("ABC\n\n", true);
    assert_eq!(lines.len(), 1);
    assert_eq!(lines[0].len(), 3);
}

#[test]
fn sgr_parameters_set_and_reset_colours() {
    let mut fg = None;
    let mut bg = Some(TermColor::Indexed(1));
    apply_sgr(&"38;2;300;0;0".chars().collect(), &mut fg, &mut bg, true);
    assert_eq!(fg, Some(TermColor::Rgb(44, 0, 0)));
    apply_sgr(&"0".chars().collect(), &mut fg, &mut bg, true);
    assert_eq!((fg, bg), (None, None));
    let art = parse_ansi_art("\n  \nx\n", false);
    assert_eq!(art.len(), 1);
    let tinted = tint_logo(&art, TermColor::Indexed(208));
    assert_eq!(tinted[0][0], ArtCell { ch: 'x', fg: Some(TermColor::Indexed(208)), bg: None });
}

#[test]
fn panels_are_placed_and_sized() {
    assert_eq!(panel_width(10, false, 100, 0), 36);
    assert_eq!(panel_width(50, true, 100, 60), 62);
    assert_eq!(panel_width(200, false, 100, 0), 96);
    let screen = Area { x: 0, y: 0, width: 80, height: 40 };
    let (panel, logo) = place_panel(screen, 40, 10, true, 20, 6);
    assert_eq!(logo, Some(Area { x: 30, y: 11, width: 20, height: 6 }));
    assert_eq!(panel, Area { x: 20, y: 18, width: 40, height: 10 });
    let small = Area { x: 0, y: 0, width: 80, height: 12 };
    let (panel, logo) = place_panel(small, 40, 10, true, 20, 6);
    assert!(logo.is_none());
    assert_eq!(panel.y, 1);
    assert_eq!(divider_sides(4, 20), (7, 7));
    assert_eq!(divider_sides(5, 20), (6, 7));
    assert_eq!(block_title("  Status "), Some(" ◆ Status ".to_owned()));
    assert_eq!(block_title("   "), None);
    assert_eq!(exp_note(None), "无上游");
    assert_eq!(exp_note(Some(0)), "已同步");
    assert_eq!(exp_note(Some(2)), "↑2 待推送");
}
