use git_pincer::app::{FileMerge, Side};
use git_pincer::merge::{ChunkKind, MergeChunk};
use git_pincer::ui::menu::{display_width as menu_width, wrap_move, MenuItem};
use git_pincer::ui::panes::{cell_budget, display_width, hclip, pane_title, settle_view, shift_range, Pane};
use git_pincer::ui::rows::{build_rows, change_type, Cell, ChangeType, RowCache};
use git_pincer::ui::theme::{parse_colorfgbg, rgb_to_xterm256};

#[test]
fn rows_build_rows_folds_long_stable_chunks() {
    let base: String = (1..=20).map(|i| format!("line{i}\n")).collect();
    let merge = FileMerge::from_three_way("demo.txt".to_owned(), &base, &base, &base);
    let (rows, starts) = build_rows(&merge, true);
    assert_eq!(rows.len(), 7);
    assert_eq!(rows[3].fold, Some(14));
    assert_eq!(starts, vec![0]);
    let (unfolded, _) = build_rows(&merge, false);
    assert_eq!(unfolded.len(), 20);
}

#[test]
fn ui_build_rows_folds_long_stable_chunks() {
    let base: String = (1..=20).map(|i| format!("line{i}\n")).collect();
    let merge = FileMerge::from_three_way("demo.txt".to_owned(), &base, &base, &base);
    let (rows, starts) = build_rows(&merge, true);
    assert_eq!(rows.len(), 7);
    assert!(rows[3].fold.is_some());
    assert_eq!(starts, vec![0]);
    let (unfolded, _) = build_rows(&merge, false);
    assert_eq!(unfolded.len(), 20);
}

fn v(s: &[&str]) -> Vec<String> {
    s.iter().map(|t| (*t).to_owned()).collect()
}

fn mk(kind: ChunkKind, base: &[&str], ours: &[&str], theirs: &[&str]) -> MergeChunk {
    MergeChunk {
        id: 0,
        kind,
        base: v(base),
        ours: v(ours),
        theirs: v(theirs),
        base_start: 1,
        ours_start: 1,
        theirs_start: 1,
    }
}

#[test]
fn change_type_maps_idea_semantics() {
    assert_eq!(change_type(&mk(ChunkKind::Ours, &[], &["new"], &[])), ChangeType::Added);
    assert_eq!(change_type(&mk(ChunkKind::Theirs, &["old"], &["old"], &[])), ChangeType::Deleted);
    assert_eq!(change_type(&mk(ChunkKind::Ours, &["a"], &["b"], &["a"])), ChangeType::Modified);
    assert_eq!(change_type(&mk(ChunkKind::Conflict, &[], &["x"], &["y"])), ChangeType::Conflict);
    assert_eq!(change_type(&mk(ChunkKind::Agree, &[], &["n"], &["n"])), ChangeType::Added);
    assert_eq!(change_type(&mk(ChunkKind::Stable, &["s"], &["s"], &["s"])), ChangeType::Unchanged);
}

#[test]
fn result_shows_placeholder_until_conflict_resolved() {
    let mut merge = FileMerge::from_three_way("demo.txt".to_owned(), "a\nb\nc\n", "a\nX\nc\n", "a\nY\nc\n");
    let (rows, _) = build_rows(&merge, false);
    assert!(rows.iter().any(|r| r.result == Cell::Placeholder));
    merge.apply(Side::Ours);
    merge.ignore(Side::Theirs);
    let (rows, _) = build_rows(&merge, false);
    assert!(rows.iter().all(|r| r.result != Cell::Placeholder));
    assert!(rows.iter().any(|r| matches!(&r.result, Cell::Line { text, .. } if text == "X")));
}

#[test]
fn rows_number_each_pane() {
    let merge = FileMerge::from_three_way("demo.txt".to_owned(), "a\nb\n", "a\nx\ny\nb\n", "a\nb\n");
    let (rows, starts) = build_rows(&merge, false);
    assert_eq!(starts, vec![0, 1, 3]);
    assert_eq!(rows[2].ours, Cell::Line { no: 3, offset: 1, text: "y".to_owned() });
    assert_eq!(rows[2].result, Cell::Empty);
    assert_eq!(rows[3].result, Cell::Line { no: 2, offset: 0, text: "b".to_owned() });
}

#[test]
fn rgb_quantizes_to_xterm256() {
    assert_eq!(rgb_to_xterm256(0, 0, 0), 16);
    assert_eq!(rgb_to_xterm256(255, 255, 255), 231);
    assert_eq!(rgb_to_xterm256(255, 0, 0), 196);
    assert_eq!(rgb_to_xterm256(95, 135, 175), 67);
    assert_eq!(rgb_to_xterm256(128, 128, 128), 244);
}

#[test]
fn parse_colorfgbg_variants() {
    assert_eq!(parse_colorfgbg("0;15"), Some(true));
    assert_eq!(parse_colorfgbg("15;0"), Some(false));
    assert_eq!(parse_colorfgbg("0;default;7"), Some(true));
    assert_eq!(parse_colorfgbg("12;8"), Some(false));
    assert_eq!(parse_colorfgbg("garbage"), None);
    assert_eq!(parse_colorfgbg(""), None);
    assert_eq!(parse_colorfgbg("0; 300"), None);
}

#[test]
fn wrap_move_cycles() {
    assert_eq!(wrap_move(0, 5, -1), 4);
    assert_eq!(wrap_move(4, 5, 1), 0);
    assert_eq!(wrap_move(2, 5, 1), 3);
    assert_eq!(wrap_move(1, 5, -7), 4);
}

#[test]
fn display_width_counts_cjk_as_two() {
    assert_eq!(menu_width("pull"), 4);
    assert_eq!(menu_width("拉取"), 4);
    assert_eq!(menu_width("a拉b"), 4);
    assert_eq!(menu_width("████░░"), 6);
    assert_eq!(menu_width("▶ ◆"), 3);
    assert_eq!(menu_width("↑2 待推送"), 9);
}

#[test]
fn menu_items_keep_their_texts() {
    let item = MenuItem::new("pull".to_owned(), "fetch".to_owned()).with_hint("long".to_owned());
    assert_eq!((item.label.as_str(), item.desc.as_str(), item.hint.as_str()), ("pull", "fetch", "long"));
}

#[test]
fn hclip_ascii_window() {
    let clip = hclip("abcdefgh", 2, 3);
    assert_eq!(clip.text, "cde");
    assert_eq!(clip.span, 2..5);
    assert_eq!((clip.lead_pad, clip.cols), (0, 3));
}

#[test]
fn hclip_wide_char_straddles_left_edge() {
    let clip = hclip("你好ab", 1, 4);
    assert_eq!(clip.text, " 好a");
    assert_eq!(clip.span, 3..7);
    assert_eq!((clip.lead_pad, clip.cols), (1, 4));
}

#[test]
fn hclip_wide_char_dropped_at_right_edge() {
    let clip = hclip("ab你好", 0, 3);
    assert_eq!(clip.text, "ab");
    assert_eq!(clip.cols, 2);
}

#[test]
fn hclip_window_past_line_end() {
    let clip = hclip("ab", 5, 3);
    assert_eq!(clip.text, "");
    assert_eq!(clip.cols, 0);
}

#[test]
fn shift_range_translates_and_drops() {
    let clip = hclip("你好ab", 1, 4);
    assert_eq!(shift_range(&(0..4), &clip), Some(1..2));
    assert_eq!(shift_range(&(3..7), &clip), Some(1..5));
    assert_eq!(shift_range(&(7..8), &clip), None);
    assert_eq!(shift_range(&(0..3), &clip), None);
}

#[test]
fn display_width_counts_wide_chars() {
    assert_eq!(display_width("ab"), 2);
    assert_eq!(display_width("你a"), 3);
}

#[test]
fn budgets_shrink_with_the_pane() {
    let wide = cell_budget(40, 12345);
    assert!(wide.gutter);
    assert_eq!(wide.no_width, 5);
    assert_eq!(wide.content, 40 - 2 - 6);
    let mid = cell_budget(20, 7);
    assert!(mid.gutter);
    assert_eq!(mid.no_width, 0);
    assert_eq!(mid.content, 18);
    let narrow = cell_budget(10, 7);
    assert!(!narrow.gutter);
    assert_eq!(narrow.content, 10);
    assert_eq!(cell_budget(30, 1).no_width, 3);
}

#[test]
fn titles_name_branches() {
    let mut merge = FileMerge::from_three_way("demo.txt".to_owned(), "a\n", "a\n", "a\n");
    assert_eq!(pane_title(Pane::Local, &merge), " LOCAL (ours) ");
    assert_eq!(pane_title(Pane::Result, &merge), " RESULT ");
    merge.theirs_label = Some("feature".to_owned());
    assert_eq!(pane_title(Pane::Remote, &merge), " REMOTE · feature ");
}

#[test]
fn row_cache_hits_and_invalidates() {
    let base: String = (1..=20).map(|i| format!("line{i}\n")).collect();
    let mut merge = FileMerge::from_three_way("demo.txt".to_owned(), &base, &base, &format!("{base}x\n"));
    let mut cache = RowCache::default();

    let ptr = cache.get(0, &merge, 0, true).0.as_ptr();
    assert_eq!(cache.get(0, &merge, 0, true).0.as_ptr(), ptr);

    let folded_len = cache.get(0, &merge, 0, true).0.len();
    let unfolded_len = cache.get(0, &merge, 0, false).0.len();
    assert!(unfolded_len > folded_len);

    merge.apply(Side::Theirs);
    let (rows, _, _) = cache.get(0, &merge, 1, false);
    assert!(rows.iter().any(|r| matches!(&r.result, Cell::Line { text, .. } if text == "x")));
}

#[test]
fn row_cache_reports_starts_and_widest_number() {
    let merge = FileMerge::from_three_way("demo.txt".to_owned(), "a\nb\nc\n", "a\nX\nc\n", "a\nY\nc\n");
    let mut cache = RowCache::default();
    let (rows, starts, max_no) = cache.get(0, &merge, 0, false);
    assert_eq!(rows.len(), 3);
    assert_eq!(starts, &[0, 1, 2][..]);
    assert_eq!(max_no, 3);
    let empty = FileMerge::from_three_way("empty.txt".to_owned(), "", "", "");
    let (_, _, none) = cache.get(1, &empty, 0, false);
    assert_eq!(none, 1);
}

#[test]
fn settle_view_follows_the_cursor_chunk() {
    let stable: String = (1..=40).map(|i| format!("s{i}\n")).collect();
    let mut merge = FileMerge::from_three_way(
        "demo.txt".to_owned(),
        &format!("{stable}b\n"),
        &format!("{stable}X\n"),
        &format!("{stable}Y\n"),
    );
    let mut cache = RowCache::default();
    let (rows, starts, max_no) = cache.get(0, &merge, 0, false);
    assert_eq!(rows.len(), 41);
    assert_eq!(starts, &[0, 40][..]);
    let v = settle_view(&mut merge, rows, starts, [30, 30, 30], max_no, 10, 0, 0, 0);
    assert_eq!((merge.scroll, merge.follow), (31, true));
    assert_eq!((v.first, v.last, v.max_scroll, v.max_h), (31, 41, 31, 0));
    for b in v.budgets {
        assert_eq!((b.gutter, b.no_width, b.content, b.hscroll), (true, 3, 22, 0));
    }
    // A scroll request stops following and moves by half views.
    let v = settle_view(&mut merge, rows, starts, [30, 30, 30], max_no, 10, 0, -2, 0);
    assert_eq!((merge.scroll, merge.follow), (21, false));
    assert_eq!((v.first, v.last), (21, 31));
}

#[test]
fn settle_view_keeps_hscroll_within_overflow() {
    let long = "x".repeat(60);
    let mut merge = FileMerge::from_three_way(
        "demo.txt".to_owned(),
        "a\n",
        &format!("{long}\n"),
        "a\n",
    );
    let mut cache = RowCache::default();
    let (rows, starts, max_no) = cache.get(0, &merge, 0, false);
    let v = settle_view(&mut merge, rows, starts, [30, 30, 30], max_no, 10, 100, 0, 0);
    assert_eq!(v.max_h, 38);
    assert!(v.budgets.iter().all(|b| b.hscroll == 38));
    let v = settle_view(&mut merge, rows, starts, [30, 30, 30], max_no, 10, 16, 0, -1);
    assert!(v.budgets.iter().all(|b| b.hscroll == 8));
}
