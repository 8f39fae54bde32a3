use git_pincer::ui::menu::vitals_from;
use git_pincer::git::{parse_ls_files_unmerged, ConflictedFile, Git, GitDirMarks, GitError, GitOutput, RepoState};

fn out(success: bool, stdout: &str, stderr: &str) -> GitOutput {
    GitOutput { success, stdout: stdout.to_owned(), stderr: stderr.to_owned() }
}

#[test]
fn parses_unmerged_entries_grouped_by_path() {
    let text = "100644 aaaa 1\tsrc/a.rs\x00100644 bbbb 2\tsrc/a.rs\x00100644 cccc 3\tsrc/a.rs\x00100644 dddd 2\tREADME.md\x00100644 eeee 3\tREADME.md\x00";
    let files = parse_ls_files_unmerged(text);
    assert_eq!(files.len(), 2);
    assert_eq!(
        files[0],
        ConflictedFile {
            path: "src/a.rs".to_owned(),
            has_base: true,
            has_ours: true,
            has_theirs: true,
        }
    );
    assert!(!files[1].has_base);
    assert!(files[1].has_ours && files[1].has_theirs);
}

#[test]
fn parses_empty_output() {
    assert!(parse_ls_files_unmerged("").is_empty());
}

#[test]
fn tolerates_tab_in_path() {
    let text = "100644 aaaa 2\ta\tb.txt\0";
    let files = parse_ls_files_unmerged(text);
    assert_eq!(files[0].path, "a\tb.txt");
}

#[test]
fn entries_without_tab_or_stage_are_handled() {
    let files = parse_ls_files_unmerged("garbage\x00100644 aaaa\tx.txt\x00");
    assert_eq!(files.len(), 1);
    assert_eq!(files[0].path, "x.txt");
    assert!(!files[0].has_base && !files[0].has_ours && !files[0].has_theirs);
}

#[test]
fn op_names_match_git_subcommands() {
    assert_eq!(RepoState::Clean.op_name(), "clean");
    assert_eq!(RepoState::Merging.op_name(), "merge");
    assert_eq!(RepoState::Rebasing.op_name(), "rebase");
    assert_eq!(RepoState::CherryPicking.op_name(), "cherry-pick");
    assert_eq!(RepoState::Reverting.op_name(), "revert");
    assert_eq!(RepoState::Am.op_name(), "am");
}

fn marks() -> GitDirMarks {
    GitDirMarks {
        rebase_apply: false,
        applying: false,
        rebase_merge: false,
        cherry_pick_head: false,
        revert_head: false,
        merge_head: false,
    }
}

#[test]
fn state_prefers_rebase_over_cherry_pick() {
    assert_eq!(Git::state(&marks()), RepoState::Clean);
    let m = GitDirMarks { merge_head: true, ..marks() };
    assert_eq!(Git::state(&m), RepoState::Merging);
    let m = GitDirMarks { rebase_merge: true, cherry_pick_head: true, ..marks() };
    assert_eq!(Git::state(&m), RepoState::Rebasing);
    let m = GitDirMarks { rebase_apply: true, applying: true, ..marks() };
    assert_eq!(Git::state(&m), RepoState::Am);
    let m = GitDirMarks { rebase_apply: true, ..marks() };
    assert_eq!(Git::state(&m), RepoState::Rebasing);
    let m = GitDirMarks { revert_head: true, merge_head: true, ..marks() };
    assert_eq!(Git::state(&m), RepoState::Reverting);
}

#[test]
fn discover_trims_toplevel_and_rejects_failure() {
    let git = Git::discover(&out(true, "  /repo/root\n", ""), true).unwrap();
    assert_eq!(git.top(), "/repo/root");
    assert!(git.verbose());
    assert_eq!(Git::discover(&out(false, "", "fatal"), false).unwrap_err(), GitError::NotARepo);
}

#[test]
fn run_ok_names_command_and_stderr() {
    let args = vec!["merge".to_owned(), "--abort".to_owned()];
    let err = Git::run_ok(&args, out(false, "", "  fatal: nope \n")).unwrap_err();
    assert_eq!(err, GitError::Failed { cmd: "merge --abort".to_owned(), stderr: "fatal: nope".to_owned() });
    assert!(Git::run_ok(&args, out(true, "ok", "")).is_ok());
}

#[test]
fn list_branches_skips_current_and_head() {
    let names = Git::list_branches(
        &out(true, "main\n", ""),
        &out(true, "main\n  feature\nHEAD\n\n", ""),
        &out(true, "origin/HEAD\norigin/main\norigin/fix-HEAD-x\n", ""),
    );
    assert_eq!(names, vec!["feature", "origin/main", "origin/fix-HEAD-x"]);
}

#[test]
fn recent_commits_lists_lines_or_nothing() {
    assert_eq!(Git::recent_commits(&out(true, "abc one\ndef two\n", "")), vec!["abc one", "def two"]);
    assert!(Git::recent_commits(&out(false, "", "fatal")).is_empty());
    assert_eq!(Git::recent_commits_args(false, 50), vec!["log", "--oneline", "-n50"]);
    assert_eq!(
        Git::recent_commits_args(true, 7),
        vec!["log", "--oneline", "-n7", "--all", "--not", "HEAD"]
    );
}

#[test]
fn continue_and_abort_need_an_operation() {
    assert!(matches!(Git::continue_op(RepoState::Clean), Err(GitError::Failed { .. })));
    assert!(matches!(Git::abort_op(RepoState::Clean), Err(GitError::Failed { .. })));
    assert_eq!(
        Git::continue_op(RepoState::Rebasing).unwrap(),
        vec!["-c", "core.editor=true", "rebase", "--continue"]
    );
    assert_eq!(Git::abort_op(RepoState::CherryPicking).unwrap(), vec!["cherry-pick", "--abort"]);
}

#[test]
fn stage_commands_name_the_file() {
    assert_eq!(Git::read_stage("src/a.rs", 2), vec!["show", ":2:src/a.rs"]);
    assert_eq!(Git::stage_resolved("src/a.rs"), vec!["add", "--", "src/a.rs"]);
}

#[test]
fn vitals_count_what_git_printed() {
    let v = vitals_from("  main\n", Some("42\n"), Some(" M a.txt\n\n?? b\n"), Some(""), None);
    assert_eq!(v.branch, "main");
    assert_eq!(v.level, 42);
    assert_eq!(v.changes, 2);
    assert_eq!(v.stashes, 0);
    assert_eq!(v.ahead, None);
    let d = vitals_from("\n", None, None, Some("stash@{0}: x\n"), Some(" 3 \n"));
    assert_eq!(d.branch, "HEAD");
    assert_eq!(d.level, 0);
    assert_eq!(d.changes, 0);
    assert_eq!(d.stashes, 1);
    assert_eq!(d.ahead, Some(3));
    let bad = vitals_from("dev", Some("many"), None, None, Some("99999999999999999999999"));
    assert_eq!(bad.level, 0);
    assert_eq!(bad.ahead, None);
}
