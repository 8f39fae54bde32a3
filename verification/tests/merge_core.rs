use git_pincer::merge::{merge_text, parse_conflict_file, ChunkKind, ConflictParseError, MergeResult};

fn kinds(result: &MergeResult) -> Vec<ChunkKind> {
    result.chunks.iter().map(|c| c.kind).collect()
}

#[test]
fn identical_inputs_are_stable() {
    let result = merge_text("a\nb\n", "a\nb\n", "a\nb\n");
    assert_eq!(kinds(&result), vec![ChunkKind::Stable]);
    assert_eq!(result.conflicts, 0);
}

#[test]
fn non_overlapping_changes_merge() {
    let result = merge_text("a\nb\nc\nd\n", "A\nb\nc\nd\n", "a\nb\nc\nD\n");
    assert_eq!(kinds(&result), vec![ChunkKind::Ours, ChunkKind::Stable, ChunkKind::Theirs]);
    assert_eq!(result.chunks[0].ours, vec!["A"]);
    assert_eq!(result.chunks[0].base, vec!["a"]);
    assert_eq!(result.chunks[2].theirs, vec!["D"]);
    assert_eq!(result.conflicts, 0);
    assert_eq!(result.ours_changes, 1);
    assert_eq!(result.theirs_changes, 1);
}

#[test]
fn identical_changes_are_agree() {
    let result = merge_text("a\nb\nc\n", "a\nB\nc\n", "a\nB\nc\n");
    assert_eq!(kinds(&result), vec![ChunkKind::Stable, ChunkKind::Agree, ChunkKind::Stable]);
    assert_eq!(result.agree, 1);
    assert_eq!(result.chunks[1].ours, result.chunks[1].theirs);
}

#[test]
fn conflicting_change_detected() {
    let result = merge_text("a\nb\nc\n", "a\nX\nc\n", "a\nY\nc\n");
    assert_eq!(result.conflicts, 1);
    let conflict = &result.chunks[1];
    assert_eq!(conflict.kind, ChunkKind::Conflict);
    assert_eq!(conflict.base, vec!["b"]);
    assert_eq!(conflict.ours, vec!["X"]);
    assert_eq!(conflict.theirs, vec!["Y"]);
}

#[test]
fn insertions_at_same_point_conflict() {
    let result = merge_text("a\nb\n", "a\nx\nb\n", "a\ny\nb\n");
    assert_eq!(result.conflicts, 1);
    let conflict = &result.chunks[1];
    assert!(conflict.base.is_empty());
    assert_eq!(conflict.ours, vec!["x"]);
    assert_eq!(conflict.theirs, vec!["y"]);
}

#[test]
fn delete_vs_edit_conflicts() {
    let result = merge_text("a\nb\nc\n", "a\nc\n", "a\nB\nc\n");
    assert_eq!(result.conflicts, 1);
    let conflict = &result.chunks[1];
    assert!(conflict.ours.is_empty());
    assert_eq!(conflict.theirs, vec!["B"]);
}

#[test]
fn adjacent_changes_stay_separate() {
    let result = merge_text("a\nb\nc\nd\n", "A\nB\nc\nd\n", "a\nb\nC\nD\n");
    assert_eq!(kinds(&result), vec![ChunkKind::Ours, ChunkKind::Theirs]);
    assert_eq!(result.conflicts, 0);
}

#[test]
fn empty_base_same_addition_agrees() {
    let result = merge_text("", "x\n", "x\n");
    assert_eq!(kinds(&result), vec![ChunkKind::Agree]);
}

#[test]
fn empty_base_different_additions_conflict() {
    let result = merge_text("", "x\n", "y\n");
    assert_eq!(kinds(&result), vec![ChunkKind::Conflict]);
}

#[test]
fn one_side_unchanged_keeps_other() {
    let result = merge_text("a\nb\n", "a\nB\n", "a\nb\n");
    assert_eq!(kinds(&result), vec![ChunkKind::Stable, ChunkKind::Ours]);
    assert_eq!(result.theirs_changes, 0);
}

#[test]
fn line_numbers_track_each_side() {
    let result = merge_text("a\nb\nc\n", "a\nx\ny\nb\nc\n", "a\nb\nC\n");
    assert_eq!(
        kinds(&result),
        vec![ChunkKind::Stable, ChunkKind::Ours, ChunkKind::Stable, ChunkKind::Theirs]
    );
    let theirs_chunk = &result.chunks[3];
    assert_eq!(theirs_chunk.base_start, 3);
    assert_eq!(theirs_chunk.ours_start, 5);
    assert_eq!(theirs_chunk.theirs_start, 3);
}

#[test]
fn crlf_lines_are_clean() {
    let result = merge_text("a\r\nb\r\n", "a\r\nB\r\n", "a\r\nb\r\n");
    for c in &result.chunks {
        for line in c.base.iter().chain(c.ours.iter()).chain(c.theirs.iter()) {
            assert!(!line.contains('\r'));
        }
    }
}

#[test]
fn parses_standard_conflict_markers() {
    let text = "a\n<<<<<<< HEAD\nx\n=======\ny\n>>>>>>> feature/demo\nb\n";
    let result = parse_conflict_file(text).unwrap();
    assert_eq!(kinds(&result), vec![ChunkKind::Stable, ChunkKind::Conflict, ChunkKind::Stable]);
    assert_eq!(result.conflicts, 1);
    assert_eq!(result.ours_label.as_deref(), Some("HEAD"));
    assert_eq!(result.theirs_label.as_deref(), Some("feature/demo"));
    let conflict = &result.chunks[1];
    assert_eq!(conflict.ours, vec!["x"]);
    assert_eq!(conflict.theirs, vec!["y"]);
    assert!(conflict.base.is_empty());
    assert_eq!(conflict.ours_start, 2);
    assert_eq!(conflict.theirs_start, 2);
}

#[test]
fn parses_diff3_style_base_section() {
    let text = "<<<<<<< HEAD\nx\n||||||| merged common ancestors\no\n=======\ny\n>>>>>>> main\n";
    let result = parse_conflict_file(text).unwrap();
    let conflict = &result.chunks[0];
    assert_eq!(conflict.kind, ChunkKind::Conflict);
    assert_eq!(conflict.base, vec!["o"]);
    assert_eq!(conflict.ours, vec!["x"]);
    assert_eq!(conflict.theirs, vec!["y"]);
}

#[test]
fn parses_multiple_conflicts() {
    let text = "a\n<<<<<<<\nx\n=======\ny\n>>>>>>>\nb\n<<<<<<<\np\n=======\nq\n>>>>>>>\n";
    let result = parse_conflict_file(text).unwrap();
    assert_eq!(result.conflicts, 2);
    assert!(result.ours_label.is_none());
    let second = &result.chunks[3];
    assert_eq!(second.ours_start, 4);
    assert_eq!(second.theirs_start, 4);
}

#[test]
fn conflict_file_without_markers_errors() {
    assert!(matches!(parse_conflict_file("hello\nworld\n"), Err(ConflictParseError::NoMarkers)));
}

#[test]
fn unterminated_conflict_errors() {
    assert!(matches!(
        parse_conflict_file("a\n<<<<<<< HEAD\nx\n=======\ny\n"),
        Err(ConflictParseError::Malformed(2))
    ));
}

#[test]
fn nested_marker_errors() {
    assert!(matches!(
        parse_conflict_file("<<<<<<< HEAD\n<<<<<<< again\n"),
        Err(ConflictParseError::Malformed(2))
    ));
}

#[test]
fn separator_outside_conflict_is_content() {
    let text = "title\n=======\n<<<<<<<\nx\n=======\ny\n>>>>>>>\n";
    let result = parse_conflict_file(text).unwrap();
    assert_eq!(result.chunks[0].base, vec!["title", "======="]);
    assert_eq!(result.conflicts, 1);
}

#[test]
fn conflict_file_with_crlf_is_clean() {
    let text = "a\r\n<<<<<<< HEAD\r\nx\r\n=======\r\ny\r\n>>>>>>> main\r\n";
    let result = parse_conflict_file(text).unwrap();
    let conflict = &result.chunks[1];
    assert_eq!(conflict.ours, vec!["x"]);
    assert_eq!(conflict.theirs, vec!["y"]);
}

#[test]
fn closing_marker_without_opening_is_malformed() {
    assert!(matches!(
        parse_conflict_file("a\n>>>>>>> main\n"),
        Err(ConflictParseError::Malformed(2))
    ));
}

#[test]
fn chunk_ids_follow_file_order() {
    let result = merge_text("a\nb\nc\n", "a\nX\nc\n", "a\nY\nc\n");
    for (i, c) in result.chunks.iter().enumerate() {
        assert_eq!(c.id, i);
    }
}

#[test]
fn base_lines_of_chunks_rebuild_the_base() {
    let result = merge_text("a\nb\nc\nd\ne\n", "a\nB\nc\nd\nE\n", "a\nb\nC\nd\ne\nf\n");
    let base: Vec<String> = result.chunks.iter().flat_map(|c| c.base.clone()).collect();
    assert_eq!(base, vec!["a", "b", "c", "d", "e"]);
    let ours: Vec<String> = result.chunks.iter().flat_map(|c| c.ours.clone()).collect();
    assert_eq!(ours, vec!["a", "B", "c", "d", "E"]);
    let theirs: Vec<String> = result.chunks.iter().flat_map(|c| c.theirs.clone()).collect();
    assert_eq!(theirs, vec!["a", "b", "C", "d", "e", "f"]);
}

#[test]
fn parsed_chunks_give_back_the_lines_without_markers() {
    let text = "top\r\n<<<<<<< HEAD\r\nmine\r\n||||||| base\r\nold\r\n=======\r\ntheirs\r\n>>>>>>> main\r\nmid\r\n<<<<<<< HEAD\r\na\r\n=======\r\nb\r\n>>>>>>> main\r\n";
    let result = parse_conflict_file(text).unwrap();
    let mut lines: Vec<String> = Vec::new();
    for c in &result.chunks {
        if c.kind == ChunkKind::Stable {
            assert!(!c.base.is_empty());
            lines.extend(c.base.iter().cloned());
        } else {
            lines.extend(c.ours.iter().cloned());
            lines.extend(c.base.iter().cloned());
            lines.extend(c.theirs.iter().cloned());
        }
    }
    assert_eq!(lines, vec!["top", "mine", "old", "theirs", "mid", "a", "b"]);
    for pair in result.chunks.windows(2) {
        assert!(!(pair[0].kind == ChunkKind::Stable && pair[1].kind == ChunkKind::Stable));
        assert_eq!(pair[1].ours_start, pair[0].ours_start + pair[0].ours.len());
        assert_eq!(pair[1].base_start, pair[0].base_start + pair[0].base.len());
        assert_eq!(pair[1].theirs_start, pair[0].theirs_start + pair[0].theirs.len());
    }
    assert_eq!(result.chunks[0].ours_start, 1);
}

#[test]
fn separators_and_base_markers_alone_are_no_markers() {
    assert!(matches!(
        parse_conflict_file("a\n||||||| x\n=======\nb\n"),
        Err(ConflictParseError::NoMarkers)
    ));
}

#[test]
fn malformed_line_lies_within_the_file() {
    match parse_conflict_file("a\nb\n<<<<<<< HEAD\nx\n") {
        Err(ConflictParseError::Malformed(n)) => assert!(n >= 1 && n <= 4),
        other => panic!("unexpected {:?}", other.is_ok()),
    }
}
