use git_pincer::app::{FileEntry, FileMerge, Session, Side, SideState};
use git_pincer::ui::header::header_parts;
use git_pincer::i18n::{Catalog, I18n};
use git_pincer::ui::cells::{
    cell_band, cell_line, clip_window, compose_spans, fold_text, gutter_symbol, is_current, number_text,
    ranges_on_chars, Piece,
};
use git_pincer::ui::menu::{rpg_layout, vitals_gauges, vitals_notes, Area, RepoVitals};
use git_pincer::ui::panes::{CellBudget, Pane};
use git_pincer::ui::rows::{Cell, ChangeType, Row};
use git_pincer::ui::theme::{TermColor, Theme};

const RED: TermColor = TermColor::Indexed(1);
const BLUE: TermColor = TermColor::Indexed(4);

fn piece(text: &str, fg: Option<TermColor>, bg: Option<TermColor>) -> Piece {
    Piece { text: text.to_owned(), fg, bg }
}

#[test]
fn compose_spans_merges_overlapping_layers() {
    let fg = vec![(RED, (0, 4))];
    let emphasis = vec![(2, 6)];
    let spans = compose_spans("abcdef", &fg, &emphasis, BLUE);
    assert_eq!(spans.len(), 3);
    assert_eq!(spans[0], piece("ab", Some(RED), None));
    assert_eq!(spans[1], piece("cd", Some(RED), Some(BLUE)));
    assert_eq!(spans[2], piece("ef", None, Some(BLUE)));
}

#[test]
fn compose_spans_clamps_out_of_range() {
    let spans = compose_spans("ab", &Vec::new(), &vec![(1, 99)], BLUE);
    assert_eq!(spans.len(), 2);
    assert_eq!(spans[1].text, "b");
    assert_eq!(spans[1].bg, Some(BLUE));
}

#[test]
fn compose_spans_cuts_between_characters() {
    // "é" takes two bytes: ranges end at byte 2, after it.
    let spans = compose_spans("éa", &vec![(RED, (0, 2))], &Vec::new(), BLUE);
    assert_eq!(spans, vec![piece("é", Some(RED), None), piece("a", None, None)]);
}

#[test]
fn ranges_inside_a_character_are_refused() {
    assert!(ranges_on_chars("éa", &vec![(RED, (0, 2))], &Vec::new()));
    assert!(!ranges_on_chars("éa", &vec![(RED, (0, 1))], &Vec::new()));
    assert!(!ranges_on_chars("éa", &Vec::new(), &vec![(1, 3)]));
    assert!(ranges_on_chars("ab", &Vec::new(), &vec![(1, 99)]));
}

fn row(chunk: usize, change: ChangeType, resolved: bool, ours: Option<SideState>, theirs: Option<SideState>) -> Row {
    Row {
        chunk,
        change,
        resolved,
        fold: None,
        ours_state: ours,
        theirs_state: theirs,
        ours: Cell::Line { no: 1, offset: 0, text: "x".to_owned() },
        result: Cell::Placeholder,
        theirs: Cell::Line { no: 1, offset: 0, text: "y".to_owned() },
    }
}

#[test]
fn gutter_marks_follow_side_states() {
    let theme = Theme::select(false, true);
    let r = row(0, ChangeType::Conflict, false, Some(SideState::Pending), Some(SideState::Applied));
    let local = gutter_symbol(&r, Pane::Local, &theme);
    assert_eq!(local.text, "»");
    assert_eq!(local.fg, Some(theme.accent(ChangeType::Conflict)));
    let remote = gutter_symbol(&r, Pane::Remote, &theme);
    assert_eq!(remote, piece("✓", Some(theme.green), None));
    assert_eq!(gutter_symbol(&r, Pane::Result, &theme), piece(" ", None, None));
    let ignored = row(0, ChangeType::Modified, false, Some(SideState::Ignored), None);
    assert_eq!(gutter_symbol(&ignored, Pane::Local, &theme), piece("✗", Some(theme.fg_dim), None));
    // An overridden chunk is resolved while its sides are still pending.
    let done = row(0, ChangeType::Conflict, true, Some(SideState::Pending), None);
    assert_eq!(gutter_symbol(&done, Pane::Local, &theme), piece(" ", None, None));
}

#[test]
fn bands_only_on_changed_unresolved_panes() {
    let theme = Theme::select(false, true);
    let r = row(2, ChangeType::Modified, false, Some(SideState::Pending), None);
    assert_eq!(cell_band(&r, Pane::Local, false, &theme), theme.band_bg(ChangeType::Modified, false));
    assert_eq!(cell_band(&r, Pane::Result, true, &theme), theme.band_bg(ChangeType::Modified, true));
    assert_eq!(cell_band(&r, Pane::Remote, false, &theme), None);
    let resolved = row(2, ChangeType::Modified, true, Some(SideState::Applied), None);
    assert_eq!(cell_band(&resolved, Pane::Result, false, &theme), None);
    assert!(is_current(&r, 2));
    assert!(!is_current(&r, 1));
    let stable = row(2, ChangeType::Unchanged, false, None, None);
    assert!(!is_current(&stable, 2));
}

#[test]
fn line_numbers_are_right_aligned() {
    assert_eq!(number_text(7, 3), "  7 ");
    assert_eq!(number_text(1234, 3), "1234 ");
}

#[test]
fn fold_rows_shorten_with_the_pane() {
    let mut en = Catalog::empty();
    en.insert("ui.fold".to_owned(), "── {n} lines folded ──".to_owned());
    let i18n = I18n::new(en, Catalog::empty());
    assert_eq!(fold_text(&i18n, 14, Pane::Local, 5), ("─────".to_owned(), false));
    assert_eq!(fold_text(&i18n, 14, Pane::Result, 20), ("─ ⋯ 14 ⋯ ─".to_owned(), true));
    assert_eq!(fold_text(&i18n, 14, Pane::Result, 40), ("── 14 lines folded ──".to_owned(), true));
    assert_eq!(fold_text(&i18n, 14, Pane::Result, 8), ("────────".to_owned(), true));
}

#[test]
fn clip_window_marks_cut_edges() {
    let w = clip_window(5, 8, 0);
    assert!(w.whole && !w.lead && !w.tail);
    let w = clip_window(10, 8, 0);
    assert!(!w.whole && !w.lead && w.tail);
    assert_eq!((w.skip, w.take), (0, 7));
    let w = clip_window(20, 8, 4);
    assert!(!w.whole && w.lead && w.tail);
    assert_eq!((w.skip, w.take), (5, 6));
    let w = clip_window(10, 8, 4);
    assert!(w.lead && !w.tail);
    assert_eq!((w.skip, w.take), (5, 7));
}

#[test]
fn main_menu_page_degrades_on_short_screens() {
    let tall = rpg_layout(Area { x: 0, y: 0, width: 120, height: 40 }, 5);
    assert!(tall.logo && tall.status && tall.hint);
    assert_eq!((tall.width, tall.breathe, tall.x, tall.y), (48, 1, 36, 7));
    let short = rpg_layout(Area { x: 0, y: 0, width: 80, height: 20 }, 5);
    assert!(!short.logo && short.status && short.hint);
    assert_eq!((short.breathe, short.x, short.y), (0, 16, 0));
    let tiny = rpg_layout(Area { x: 0, y: 0, width: 80, height: 12 }, 5);
    assert!(!tiny.logo && !tiny.status && !tiny.hint);
    assert_eq!(tiny.y, 1);
    let narrow = rpg_layout(Area { x: 0, y: 0, width: 30, height: 40 }, 5);
    assert_eq!(narrow.width, 26);
}

#[test]
fn status_window_gauges_and_notes() {
    let v = RepoVitals { branch: "main".to_owned(), level: 5, changes: 3, stashes: 12, ahead: Some(4) };
    assert_eq!(vitals_gauges(&v), (7, 0, 4));
    assert_eq!(
        vitals_notes(&v),
        ("Lv.5".to_owned(), "改动 ×3".to_owned(), "贮藏 ×12".to_owned(), "↑4 待推送".to_owned())
    );
    let none = RepoVitals { branch: "dev".to_owned(), level: 0, changes: 0, stashes: 0, ahead: None };
    assert_eq!(vitals_gauges(&none), (10, 10, 0));
    assert_eq!(vitals_notes(&none).3, "无上游");
}

fn text_row(text: &str) -> Row {
    Row {
        chunk: 0,
        change: ChangeType::Modified,
        resolved: false,
        fold: None,
        ours_state: Some(SideState::Pending),
        theirs_state: None,
        ours: Cell::Line { no: 1, offset: 0, text: text.to_owned() },
        result: Cell::Placeholder,
        theirs: Cell::Empty,
    }
}

fn budget(content: usize, hscroll: usize) -> CellBudget {
    CellBudget { gutter: true, no_width: 3, content, hscroll }
}

fn texts(pieces: &[Piece]) -> Vec<String> {
    pieces.iter().map(|p| p.text.clone()).collect()
}

#[test]
fn cell_line_lays_out_gutter_number_and_text() {
    let theme = Theme::select(false, true);
    let i18n = I18n::new(Catalog::empty(), Catalog::empty());
    let row = text_row("abcdef");
    let line = cell_line(&row, Pane::Local, 0, &budget(10, 0), &theme, &i18n, &Vec::new(), &Vec::new());
    assert_eq!(line.bg, theme.band_bg(ChangeType::Modified, true));
    assert_eq!(
        line.pieces,
        vec![
            piece("»", Some(theme.accent(ChangeType::Modified)), None),
            piece(" ", None, None),
            piece("  1 ", Some(theme.fg_bright), None),
            piece("abcdef", None, None),
        ]
    );
    // Another chunk under the cursor: the band and the number dim.
    let other = cell_line(&row, Pane::Local, 3, &budget(10, 0), &theme, &i18n, &Vec::new(), &Vec::new());
    assert_eq!(other.bg, theme.band_bg(ChangeType::Modified, false));
    assert_eq!(other.pieces[2], piece("  1 ", Some(theme.fg_dim), None));
}

#[test]
fn cell_line_marks_pending_results_and_empty_cells() {
    let theme = Theme::select(true, false);
    let mut en = Catalog::empty();
    en.insert("ui.pending".to_owned(), "(pending)".to_owned());
    let i18n = I18n::new(en, Catalog::empty());
    let row = text_row("abc");
    let result = cell_line(&row, Pane::Result, 0, &budget(10, 0), &theme, &i18n, &Vec::new(), &Vec::new());
    assert_eq!(texts(&result.pieces), vec![" ", " ", "(pending)"]);
    assert_eq!(result.pieces[2].fg, Some(theme.placeholder_fg));
    let remote = cell_line(&row, Pane::Remote, 0, &budget(10, 0), &theme, &i18n, &Vec::new(), &Vec::new());
    assert_eq!(texts(&remote.pieces), vec![" ", " "]);
    assert_eq!(remote.bg, None);
    let narrow = CellBudget { gutter: false, no_width: 0, content: 10, hscroll: 0 };
    let bare = cell_line(&row, Pane::Local, 0, &narrow, &theme, &i18n, &Vec::new(), &Vec::new());
    assert_eq!(texts(&bare.pieces), vec!["abc"]);
}

#[test]
fn cell_line_clips_with_ellipses() {
    let theme = Theme::select(false, true);
    let i18n = I18n::new(Catalog::empty(), Catalog::empty());
    let row = text_row("abcdefghij");
    let cut = cell_line(&row, Pane::Local, 0, &budget(5, 0), &theme, &i18n, &Vec::new(), &Vec::new());
    assert_eq!(texts(&cut.pieces[3..]), vec!["abcd", "…"]);
    assert_eq!(cut.pieces[4].fg, Some(theme.fg_dim));
    let scrolled = cell_line(&row, Pane::Local, 0, &budget(5, 2), &theme, &i18n, &Vec::new(), &Vec::new());
    assert_eq!(texts(&scrolled.pieces[3..]), vec!["…", "def", "…"]);
    // The emphasis of "de" follows the text into the window.
    let emph = vec![(3, 5)];
    let moved = cell_line(&row, Pane::Local, 0, &budget(5, 2), &theme, &i18n, &emph, &Vec::new());
    let bg = theme.emph_bg(ChangeType::Modified, true);
    assert_eq!(moved.pieces[4..6].to_vec(), vec![piece("de", None, Some(bg)), piece("f", None, None)]);
}

#[test]
fn cell_line_pads_a_wide_character_cut_on_the_left() {
    let theme = Theme::select(false, true);
    let i18n = I18n::new(Catalog::empty(), Catalog::empty());
    let row = text_row("中文字");
    let line = cell_line(&row, Pane::Local, 0, &budget(4, 2), &theme, &i18n, &Vec::new(), &Vec::new());
    assert_eq!(texts(&line.pieces[3..]), vec!["…", " 字"]);
    let both = cell_line(&row, Pane::Local, 0, &budget(4, 1), &theme, &i18n, &Vec::new(), &Vec::new());
    assert_eq!(texts(&both.pieces[3..]), vec!["…", "文", "…"]);
}

#[test]
fn cell_line_keeps_text_plain_when_a_range_splits_a_character() {
    let theme = Theme::select(false, true);
    let i18n = I18n::new(Catalog::empty(), Catalog::empty());
    let row = text_row("éa");
    let line = cell_line(&row, Pane::Local, 0, &budget(10, 0), &theme, &i18n, &vec![(0, 1)], &Vec::new());
    assert_eq!(line.pieces[3], piece("éa", None, None));
}

#[test]
fn header_shows_operation_progress_and_status() {
    let text = FileMerge::from_three_way("a.txt".to_owned(), "a\nb\nc\n", "a\nX\nc\n", "a\nY\nc\n");
    let binary = FileEntry::Binary { path: "img.png".to_owned(), ours: vec![0, 1], theirs: vec![2], choice: None };
    let mut session = Session::new(vec![FileEntry::Text(text), binary], "cherry-pick".to_owned());
    let h = header_parts(&session);
    assert_eq!(h.badge, " ⚑ CHERRY-PICK ");
    assert_eq!(h.filled, 0);
    assert_eq!(h.files, " 1/2 文件 ");
    assert_eq!(h.path, " a.txt ");
    assert!(!h.ready);
    assert_eq!(h.status, " ✗ 1 冲突待解决");
    session.written[0] = true;
    session.current = 1;
    let h = header_parts(&session);
    assert_eq!(h.filled, 5);
    assert_eq!(h.files, " 2/2 文件 ");
    assert_eq!(h.path, " img.png ");
    assert_eq!(h.status, " ✗ 1 冲突待解决");
    if let FileEntry::Binary { choice, .. } = &mut session.files[1] {
        *choice = Some(Side::Ours);
    }
    let h = header_parts(&session);
    assert!(h.ready);
    assert_eq!(h.status, " ✓ 本文件已就绪(w 写盘)");
}
