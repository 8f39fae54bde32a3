use git_pincer::app::{FileEntry, FileMerge, Session, Side};
use git_pincer::commands::menu::{
    commit_items, empty_pick_notice, flash_line, menu_command, outcome_title, pick_kind, pick_title, top_items,
    MenuPick,
};
use git_pincer::commands::resolve::{
    after_continue, entry_of, found_msg, reading_msg, resolve_next, session_of, AfterContinue, ResolveNext,
    StageBlobs,
};
use git_pincer::git::RepoState;
use git_pincer::i18n::{parse, Catalog, I18n};
use git_pincer::ui::control::{
    can_dispatch, edited_lines, file_key, finish_copy, finish_edit, finish_write, on_key, CopyWhat, FileOutcome,
    Outcome, Step, UiState,
};
use git_pincer::ui::keymap::Action;
use git_pincer::ui::panes::{settle_hscroll, settle_scroll};
use git_pincer::ui::rows::build_rows;

fn write_session() -> Session {
    let merge = FileMerge::from_three_way(
        "demo.txt".to_owned(),
        "a\nb\nc\nd\n",
        "a\nX\nc\nd\n",
        "a\nY\nc\nD\n",
    );
    Session::new(vec![FileEntry::Text(merge)], "merge".to_owned())
}

fn write_auto_applies(session: &mut Session) -> (Vec<u8>, UiState) {
    let FileEntry::Text(m) = session.current_file_mut() else { unreachable!() };
    m.apply(Side::Ours);
    m.ignore(Side::Theirs);
    let mut ui = UiState::new();
    let step = on_key(session, &mut ui, Some(Action::WriteFile));
    let Step::Write { path, bytes, auto_applied } = step else { panic!("write expected") };
    assert_eq!(path, "demo.txt");
    let next = finish_write(session, &mut ui, &path, auto_applied);
    assert!(matches!(next, Step::Leave(Outcome::Completed)));
    (bytes, ui)
}

#[test]
fn ui_write_auto_applies_pending_nonconflict_changes() {
    let mut session = write_session();
    let (written, ui) = write_auto_applies(&mut session);
    assert_eq!(String::from_utf8(written).unwrap(), "a\nX\nc\nD\n");
    assert!(ui.message.contains("自动应用"));
}

#[test]
fn mod_write_auto_applies_pending_nonconflict_changes() {
    let mut session = write_session();
    let (written, ui) = write_auto_applies(&mut session);
    assert!(!written.is_empty());
    assert_eq!(String::from_utf8(written).unwrap(), "a\nX\nc\nD\n");
    assert_eq!(ui.message, "✔ 已写入 demo.txt(自动应用了 1 处非冲突改动)");
}

#[test]
fn write_refused_while_conflicts_remain() {
    let mut session = write_session();
    let mut ui = UiState::new();
    let step = on_key(&mut session, &mut ui, Some(Action::WriteFile));
    assert!(matches!(step, Step::Stay));
    assert_eq!(ui.message, "仍有未解决的冲突,无法写入(n 跳到下一处冲突)");
    assert!(!session.all_written());
}

#[test]
fn quit_needs_confirmation_while_files_are_open() {
    let mut session = write_session();
    let mut ui = UiState::new();
    assert!(matches!(on_key(&mut session, &mut ui, Some(Action::Quit)), Step::Stay));
    assert!(ui.pending_quit);
    assert!(ui.message.contains("再按一次 q"));
    assert!(matches!(on_key(&mut session, &mut ui, Some(Action::Quit)), Step::Leave(Outcome::Quit)));
    // any other key cancels a pending quit
    let mut ui = UiState::new();
    on_key(&mut session, &mut ui, Some(Action::Quit));
    on_key(&mut session, &mut ui, Some(Action::NextChange));
    assert!(!ui.pending_quit);
}

#[test]
fn help_overlay_swallows_the_next_key() {
    let mut session = write_session();
    let mut ui = UiState::new();
    on_key(&mut session, &mut ui, Some(Action::Help));
    assert!(ui.show_help);
    on_key(&mut session, &mut ui, Some(Action::TakeLocal));
    assert!(!ui.show_help);
    let FileEntry::Text(m) = session.current_file() else { unreachable!() };
    assert!(m.current_content(m.cursor) == vec!["b".to_owned()]);
}

#[test]
fn take_keys_bump_revision_and_copy_keys_hand_out_text() {
    let mut session = write_session();
    let mut ui = UiState::new();
    on_key(&mut session, &mut ui, Some(Action::TakeRemote));
    assert_eq!(ui.revision, 1);
    match on_key(&mut session, &mut ui, Some(Action::CopyChunk)) {
        Step::Copy(req) => {
            assert_eq!(req.text, "Y");
            assert_eq!(req.what, CopyWhat::ChunkResult(1));
            finish_copy(&mut ui, req.what, Ok(()));
            assert_eq!(ui.message, "已复制当前块结果(1 行)");
        }
        _ => panic!("copy expected"),
    }
    match on_key(&mut session, &mut ui, Some(Action::CopyLocal)) {
        Step::Copy(req) => assert_eq!(req.text, "X"),
        _ => panic!("copy expected"),
    }
    finish_copy(&mut ui, CopyWhat::File, Err("no clipboard".to_owned()));
    assert_eq!(ui.message, "复制失败:no clipboard");
    assert_eq!(ui.revision, 1);
}

#[test]
fn apply_all_reports_and_undo_file_resets() {
    let mut session = write_session();
    let mut ui = UiState::new();
    on_key(&mut session, &mut ui, Some(Action::ApplyNonConflict));
    assert_eq!(ui.message, "已应用全部非冲突改动");
    let FileEntry::Text(m) = session.current_file() else { unreachable!() };
    assert_eq!(m.pending_changes(), 1);
    on_key(&mut session, &mut ui, Some(Action::UndoFile));
    let FileEntry::Text(m) = session.current_file() else { unreachable!() };
    assert_eq!(m.pending_changes(), 2);
    assert_eq!(ui.revision, 2);
}

#[test]
fn edit_replaces_chunk_or_is_cancelled() {
    let mut session = write_session();
    let mut ui = UiState::new();
    let Step::Edit(lines) = on_key(&mut session, &mut ui, Some(Action::EditChunk)) else { panic!("edit expected") };
    assert_eq!(lines, vec!["b".to_owned()]);
    finish_edit(&mut session, &mut ui, None);
    assert_eq!(ui.message, "编辑已取消");
    finish_edit(&mut session, &mut ui, Some(edited_lines("merged\n")));
    assert_eq!(ui.message, "已用编辑结果覆写当前块");
    let FileEntry::Text(m) = session.current_file() else { unreachable!() };
    assert_eq!(m.current_content(m.cursor), vec!["merged".to_owned()]);
    assert!(m.chunk_resolved(m.cursor));
}

#[test]
fn edited_text_becomes_lines() {
    assert!(edited_lines("").is_empty());
    assert!(edited_lines("\n").is_empty());
    assert_eq!(edited_lines("a\nb\n"), vec!["a".to_owned(), "b".to_owned()]);
    assert_eq!(edited_lines("a\n\n"), vec!["a".to_owned(), "".to_owned()]);
}

#[test]
fn binary_files_choose_a_side() {
    let mut entry = FileEntry::Binary { path: "logo.png".to_owned(), ours: vec![1], theirs: vec![2], choice: None };
    assert!(matches!(file_key(&mut entry, Action::TakeRemote), FileOutcome::Same));
    assert!(matches!(&entry, FileEntry::Binary { choice: Some(Side::Theirs), .. }));
    file_key(&mut entry, Action::UndoChunk);
    assert!(matches!(&entry, FileEntry::Binary { choice: None, .. }));
}

#[test]
fn dispatch_guard_rejects_keys_without_a_chunk() {
    let session = write_session();
    assert!(can_dispatch(&session, Some(Action::TakeLocal)));
    let empty = FileMerge::from_three_way("e.txt".to_owned(), "", "", "");
    let session = Session::new(vec![FileEntry::Text(empty)], "merge".to_owned());
    assert!(!can_dispatch(&session, Some(Action::TakeLocal)));
    assert!(can_dispatch(&session, Some(Action::NextFile)));
}

fn settle_like_draw(m: &mut FileMerge, height: usize) {
    let (rows, starts) = build_rows(m, false);
    let target = starts[m.cursor];
    let (scroll, follow) = settle_scroll(m.scroll, m.follow, 0, rows.len(), height, target);
    m.scroll = scroll;
    m.follow = follow;
}

fn selected_chunk_stays_in_view() {
    let stable: String = (1..=40).map(|i| format!("s{i}\n")).collect();
    let base = format!("a\n{stable}b\n{stable}c\n");
    let ours = format!("A\n{stable}B\n{stable}C\n");
    let theirs = format!("X\n{stable}Y\n{stable}Z\n");
    let mut m = FileMerge::from_three_way("demo.txt".to_owned(), &base, &ours, &theirs);
    let body_height = 19usize;
    settle_like_draw(&mut m, body_height);
    for step in ["next", "next", "prev"] {
        if step == "next" {
            m.next_conflict();
        } else {
            m.prev_conflict();
        }
        settle_like_draw(&mut m, body_height);
    }
    let (_, starts) = build_rows(&m, false);
    let target = starts[m.cursor];
    assert!(target >= m.scroll, "the selected chunk scrolled out above");
    assert!(target < m.scroll + body_height, "the selected chunk scrolled out below");
    assert!(target + 2 < m.scroll + body_height, "the selected chunk sticks to the bottom");
}

#[test]
fn ui_scroll_keeps_selected_chunk_in_view() {
    selected_chunk_stays_in_view();
}

#[test]
fn chrome_scroll_keeps_selected_chunk_in_view() {
    selected_chunk_stays_in_view();
}

#[test]
fn scroll_requests_move_by_half_views() {
    assert_eq!(settle_scroll(0, true, 1, 100, 20, 0), (10, false));
    assert_eq!(settle_scroll(85, false, 1, 100, 20, 0), (80, false));
    assert_eq!(settle_scroll(5, false, -1, 100, 20, 0), (0, false));
    assert_eq!(settle_scroll(50, true, 0, 100, 20, 90), (80, true));
    assert_eq!(settle_hscroll(0, 2, 100), 16);
    assert_eq!(settle_hscroll(20, -3, 100), 0);
    assert_eq!(settle_hscroll(0, 2, 5), 5);
}

fn menu_messages() -> I18n {
    let en = parse(
        "menu.pull_desc = Pull\nmenu.pull_hint = Pull from the remote\nmenu.pick_merge = Merge which branch?\n\
         menu.notice_info = Note\nmenu.no_commits = No commits\nmenu.done = git {cmd} done\nmenu.failed = git {cmd} failed\n\
         resolve.continue_failed = git {op} --continue failed\nresolve.reading = [{i}/{n}] {path}\nresolve.found = {n} files\n",
    );
    I18n::new(en, Catalog::empty())
}

#[test]
fn menu_builds_commands_and_items() {
    let i = menu_messages();
    let items = top_items(&i);
    assert_eq!(items.len(), 5);
    assert_eq!(items[0].label, "pull");
    assert_eq!(items[0].desc, "Pull");
    assert_eq!(items[0].hint, "Pull from the remote");
    assert_eq!(items[3].label, "cherry-pick");
    assert_eq!(pick_kind(0), MenuPick::Nothing);
    assert_eq!(pick_kind(2), MenuPick::Branch);
    assert_eq!(pick_kind(3), MenuPick::Commit { others_only: true });
    assert_eq!(pick_title(&i, 1), "Merge which branch?");
    assert_eq!(empty_pick_notice(&i, 4), ("Note".to_owned(), "No commits".to_owned()));
    let target = "main".to_owned();
    assert_eq!(menu_command(1, &target), vec!["merge", "--no-edit", "main"]);
    assert_eq!(menu_command(4, &target), vec!["revert", "--no-edit", "main"]);
    assert_eq!(menu_command(0, &target), vec!["pull"]);
    let commits = commit_items(&vec!["abc123 fix the bug".to_owned(), "nospace".to_owned()]);
    assert_eq!(commits.len(), 1);
    assert_eq!((commits[0].label.as_str(), commits[0].desc.as_str()), ("abc123", "fix the bug"));
    assert_eq!(flash_line(&vec!["merge".to_owned(), "main".to_owned()]), "$ git merge main");
    assert_eq!(outcome_title(&i, &"pull".to_owned(), false), "git pull done");
    assert_eq!(outcome_title(&i, &"pull".to_owned(), true), "git pull failed");
}

#[test]
fn resolve_loop_decisions() {
    let i = menu_messages();
    assert_eq!(resolve_next(2, RepoState::Merging), ResolveNext::Resolve);
    assert_eq!(resolve_next(0, RepoState::Clean), ResolveNext::Done);
    assert_eq!(resolve_next(0, RepoState::Rebasing), ResolveNext::Continue(RepoState::Rebasing));
    assert!(matches!(after_continue(&i, true, 0, RepoState::Merging), AfterContinue::Again));
    assert!(matches!(after_continue(&i, false, 1, RepoState::Rebasing), AfterContinue::NextRound));
    match after_continue(&i, false, 0, RepoState::Merging) {
        AfterContinue::Failed(m) => assert_eq!(m, "git merge --continue failed"),
        _ => panic!("failure expected"),
    }
    assert_eq!(reading_msg(&i, 0, 3, &"a.txt".to_owned()), "[1/3] a.txt");
    assert_eq!(found_msg(&i, 2), "2 files");
}

#[test]
fn stages_with_nul_are_binary() {
    let bin = entry_of(StageBlobs {
        path: "logo.png".to_owned(),
        base: vec![0, 1],
        ours: vec![2],
        theirs: vec![3],
    })
    .unwrap();
    assert!(matches!(bin, FileEntry::Binary { choice: None, .. }));
    let text = entry_of(StageBlobs {
        path: "a.txt".to_owned(),
        base: b"a\nb\n".to_vec(),
        ours: b"a\nX\n".to_vec(),
        theirs: b"a\nb\n".to_vec(),
    })
    .unwrap();
    let FileEntry::Text(m) = text else { panic!("text expected") };
    assert_eq!(m.resolved_content(), "a\nb\n");
    let session = session_of(
        vec![
            StageBlobs { path: "x".to_owned(), base: vec![], ours: vec![0], theirs: vec![] },
            StageBlobs { path: "y".to_owned(), base: b"1\n".to_vec(), ours: b"2\n".to_vec(), theirs: b"1\n".to_vec() },
        ],
        "merge".to_owned(),
    )
    .unwrap();
    assert_eq!(session.files.len(), 2);
    assert_eq!(session.files[0].path(), "x");
    assert_eq!(session.files[1].path(), "y");
    assert!(matches!(session.files[1], FileEntry::Text(_)));
}

#[test]
fn invalid_utf8_is_read_lossily() {
    let text = entry_of(StageBlobs {
        path: "l.txt".to_owned(),
        base: vec![0xff, b'\n'],
        ours: vec![0xff, b'\n'],
        theirs: vec![0xff, b'\n'],
    })
    .unwrap();
    let FileEntry::Text(m) = text else { panic!("text expected") };
    assert_eq!(m.resolved_content(), "\u{fffd}\n");
}
