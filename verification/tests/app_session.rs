use git_pincer::app::{FileEntry, FileMerge, Session, Side};
use git_pincer::merge::ChunkKind;

/// A file whose chunks are [Stable, Conflict, Stable, Ours].
fn sample() -> FileMerge {
    FileMerge::from_three_way(
        "demo.txt".to_owned(),
        "a\nb\nc\nd\n",
        "a\nX\nc\nD\n",
        "a\nY\nc\nd\n",
    )
}

#[test]
fn sample_shape_is_expected() {
    let merge = sample();
    let kinds: Vec<ChunkKind> = merge.chunks.iter().map(|c| c.kind).collect();
    assert_eq!(
        kinds,
        vec![ChunkKind::Stable, ChunkKind::Conflict, ChunkKind::Stable, ChunkKind::Ours]
    );
    assert_eq!(merge.cursor, 1);
}

#[test]
fn apply_ours_resolves_conflict_side() {
    let mut merge = sample();
    merge.apply(Side::Ours);
    assert!(!merge.chunk_resolved(1));
    merge.ignore(Side::Theirs);
    assert!(merge.chunk_resolved(1));
    assert_eq!(merge.current_content(1), vec!["X"]);
}

#[test]
fn apply_both_sides_appends_in_order() {
    let mut merge = sample();
    merge.apply(Side::Theirs);
    merge.apply(Side::Ours);
    assert_eq!(merge.current_content(1), vec!["Y", "X"]);
    assert!(merge.chunk_resolved(1));
}

#[test]
fn ignore_both_keeps_base() {
    let mut merge = sample();
    merge.ignore(Side::Ours);
    merge.ignore(Side::Theirs);
    assert_eq!(merge.current_content(1), vec!["b"]);
    assert!(merge.chunk_resolved(1));
}

#[test]
fn undo_restores_pending() {
    let mut merge = sample();
    merge.apply(Side::Ours);
    merge.undo();
    assert!(!merge.chunk_resolved(1));
    assert_eq!(merge.current_content(1), vec!["b"]);
}

#[test]
fn undo_all_resets_every_chunk() {
    let mut merge = sample();
    merge.apply(Side::Ours);
    merge.ignore(Side::Theirs);
    merge.cursor = 3;
    merge.apply(Side::Ours);
    merge.set_override(vec!["edited".to_owned()]);
    assert_eq!(merge.pending_changes(), 0);
    merge.undo_all();
    assert_eq!(merge.pending_changes(), 2);
    assert!(!merge.chunk_resolved(1));
    assert!(!merge.chunk_resolved(3));
    assert_eq!(merge.current_content(3), vec!["d"]);
}

#[test]
fn override_wins_and_resolves() {
    let mut merge = sample();
    merge.set_override(vec!["merged".to_owned()]);
    assert!(merge.chunk_resolved(1));
    assert_eq!(merge.current_content(1), vec!["merged"]);
    merge.apply(Side::Ours);
    assert_eq!(merge.current_content(1), vec!["merged"]);
}

#[test]
fn apply_on_ineffective_side_is_noop() {
    let mut merge = sample();
    merge.cursor = 3;
    merge.apply(Side::Theirs);
    assert!(!merge.chunk_resolved(3));
    merge.apply(Side::Ours);
    assert!(merge.chunk_resolved(3));
    assert_eq!(merge.current_content(3), vec!["D"]);
}

#[test]
fn apply_all_nonconflict_skips_conflicts() {
    let mut merge = sample();
    merge.apply_all_nonconflict();
    assert!(merge.chunk_resolved(3));
    assert!(!merge.chunk_resolved(1));
    assert_eq!(merge.pending_conflicts(), 1);
}

#[test]
fn resolved_content_joins_chunks_with_newline() {
    let mut merge = sample();
    merge.apply(Side::Ours);
    merge.ignore(Side::Theirs);
    merge.cursor = 3;
    merge.apply(Side::Ours);
    assert!(merge.ready_to_write());
    assert_eq!(merge.resolved_content(), "a\nX\nc\nD\n");
}

#[test]
fn conflict_navigation_wraps_and_skips_resolved() {
    let mut merge = FileMerge::from_three_way(
        "demo.txt".to_owned(),
        "a\nb\nc\nd\ne\n",
        "a\nX\nc\nY\ne\n",
        "a\nP\nc\nQ\ne\n",
    );
    assert_eq!(merge.pending_conflicts(), 2);
    assert_eq!(merge.cursor, 1);
    merge.next_conflict();
    assert_eq!(merge.cursor, 3);
    merge.next_conflict();
    assert_eq!(merge.cursor, 1);
    merge.apply(Side::Ours);
    merge.ignore(Side::Theirs);
    merge.next_conflict();
    assert_eq!(merge.cursor, 3);
    merge.next_conflict();
    assert_eq!(merge.cursor, 3);
}

#[test]
fn agree_single_apply_resolves_both_sides() {
    let mut merge = FileMerge::from_three_way("demo.txt".to_owned(), "a\nb\n", "a\nB\n", "a\nB\n");
    assert_eq!(merge.chunks[merge.cursor].kind, ChunkKind::Agree);
    merge.apply(Side::Theirs);
    assert!(merge.chunk_resolved(merge.cursor));
    assert_eq!(merge.current_content(merge.cursor), vec!["B"]);
}

#[test]
fn session_marks_written_and_advances() {
    let files = vec![
        FileEntry::Text(sample()),
        FileEntry::Binary {
            path: "logo.png".to_owned(),
            ours: vec![1, 2],
            theirs: vec![3, 4],
            choice: None,
        },
    ];
    let mut session = Session::new(files, "merge".to_owned());
    assert!(!session.all_written());
    session.mark_written();
    assert_eq!(session.current, 1);
    if let FileEntry::Binary { choice, .. } = session.current_file_mut() {
        *choice = Some(Side::Theirs);
    }
    assert!(session.current_file().ready_to_write());
    assert_eq!(session.current_file().resolved_bytes(), vec![3, 4]);
    session.mark_written();
    assert!(session.all_written());
}

#[test]
fn prev_change_and_next_change_skip_stable_chunks() {
    let mut merge = sample();
    merge.next_change();
    assert_eq!(merge.cursor, 3);
    merge.next_change();
    assert_eq!(merge.cursor, 3);
    merge.prev_change();
    assert_eq!(merge.cursor, 1);
    merge.prev_change();
    assert_eq!(merge.cursor, 1);
}

#[test]
fn prev_conflict_wraps_backwards() {
    let mut merge = FileMerge::from_three_way(
        "demo.txt".to_owned(),
        "a\nb\nc\nd\ne\n",
        "a\nX\nc\nY\ne\n",
        "a\nP\nc\nQ\ne\n",
    );
    merge.prev_conflict();
    assert_eq!(merge.cursor, 3);
    merge.prev_conflict();
    assert_eq!(merge.cursor, 1);
}

#[test]
fn untouched_file_writes_its_base() {
    let merge = sample();
    assert!(!merge.ready_to_write());
    assert_eq!(merge.resolved_content(), "a\nb\nc\nd\n");
}

#[test]
fn text_entry_bytes_are_the_resolved_text() {
    let mut merge = sample();
    merge.apply(Side::Theirs);
    merge.ignore(Side::Ours);
    let entry = FileEntry::Text(merge);
    assert_eq!(entry.path(), "demo.txt");
    assert!(entry.ready_to_write());
    assert_eq!(entry.resolved_bytes(), b"a\nY\nc\nd\n".to_vec());
}

#[test]
fn binary_entry_defaults_to_ours_and_needs_a_choice() {
    let entry = FileEntry::Binary {
        path: "logo.png".to_owned(),
        ours: vec![1, 2],
        theirs: vec![3, 4],
        choice: None,
    };
    assert!(!entry.ready_to_write());
    assert_eq!(entry.resolved_bytes(), vec![1, 2]);
    assert_eq!(entry.path(), "logo.png");
}

#[test]
fn next_file_wraps_around() {
    let files = vec![FileEntry::Text(sample()), FileEntry::Text(sample())];
    let mut session = Session::new(files, "merge".to_owned());
    session.next_file();
    assert_eq!(session.current, 1);
    session.next_file();
    assert_eq!(session.current, 0);
}

#[test]
fn mark_written_moves_to_the_next_unwritten_file_cyclically() {
    let bin = |name: &str| FileEntry::Binary { path: name.to_owned(), ours: vec![1], theirs: vec![2], choice: None };
    let mut session = Session::new(vec![bin("a"), bin("b"), bin("c"), bin("d")], "merge".to_owned());
    session.written[1] = true;
    session.current = 2;
    session.mark_written();
    assert_eq!(session.current, 3);
    session.mark_written();
    assert_eq!(session.current, 0);
    session.mark_written();
    assert!(session.all_written());
    assert_eq!(session.current, 0);
}

#[test]
fn apply_all_nonconflict_leaves_only_conflicts_and_is_idempotent() {
    let mut merge = sample();
    let conflicts_before = merge.pending_conflicts();
    merge.apply_all_nonconflict();
    assert_eq!(merge.pending_changes(), merge.pending_conflicts());
    assert_eq!(merge.pending_conflicts(), conflicts_before);
    let once = merge.resolved_content();
    merge.apply_all_nonconflict();
    assert_eq!(merge.resolved_content(), once);
    assert_eq!(merge.pending_changes(), 1);
}

#[test]
fn next_conflict_takes_the_least_cyclic_step() {
    // chunks: Conflict, Stable, Conflict, Stable, Conflict
    let mut merge = FileMerge::from_three_way(
        "demo.txt".to_owned(),
        "b\nc\nd\ne\nf\n",
        "X\nc\nY\ne\nZ\n",
        "P\nc\nQ\ne\nR\n",
    );
    let kinds: Vec<ChunkKind> = merge.chunks.iter().map(|c| c.kind).collect();
    assert_eq!(
        kinds,
        vec![ChunkKind::Conflict, ChunkKind::Stable, ChunkKind::Conflict, ChunkKind::Stable, ChunkKind::Conflict]
    );
    merge.cursor = 2;
    merge.next_conflict();
    assert_eq!(merge.cursor, 4);
    merge.next_conflict();
    assert_eq!(merge.cursor, 0);
    merge.prev_conflict();
    assert_eq!(merge.cursor, 4);
}
