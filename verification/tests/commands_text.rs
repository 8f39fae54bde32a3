use git_pincer::commands::menu::{after_operation, after_target, compose_notice, MenuNext, NOTICE_LINES};
use git_pincer::ui::menu::MenuItem;
use git_pincer::commands::run::{
    cherry_pick, launch_outcome, merge, pull, rebase, revert, CherryPickArgs, LaunchOutcome, MergeArgs,
    PullArgs, RebaseArgs, RevertArgs,
};
use git_pincer::commands::switch::{local_ref, remote_ref, switch_cmd};
use git_pincer::git::GitOutput;
use git_pincer::i18n::{parse, Catalog, I18n};

fn i18n() -> I18n {
    I18n::new(
        parse("menu.no_output = (no output)\nmenu.skipped = … (first {n} lines omitted)\n"),
        Catalog::empty(),
    )
}

#[test]
fn compose_notice_empty_output() {
    assert_eq!(compose_notice(&i18n(), "", "  \n"), "(no output)");
}

#[test]
fn compose_notice_merges_streams() {
    assert_eq!(
        compose_notice(&i18n(), "Already up to date.\n", "warning: x\n"),
        "Already up to date.\nwarning: x"
    );
}

#[test]
fn compose_notice_truncates_long_output() {
    let long = (1..=20).map(|i| format!("line{i}")).collect::<Vec<_>>().join("\n");
    let got = compose_notice(&i18n(), &long, "");
    assert!(got.starts_with("… (first 5 lines omitted)"));
    assert!(got.ends_with("line20"));
    assert_eq!(got.lines().count(), NOTICE_LINES + 1);
}

#[test]
fn compose_notice_keeps_stderr_alone() {
    assert_eq!(compose_notice(&i18n(), " \n", "error: y\n\n"), "error: y");
}

#[test]
fn command_lines_of_each_operation() {
    assert_eq!(merge(&MergeArgs { target: "feature".to_owned() }), vec!["merge", "--no-edit", "feature"]);
    assert_eq!(rebase(&RebaseArgs { target: "main".to_owned() }), vec!["rebase", "main"]);
    assert_eq!(pull(&PullArgs { args: vec!["origin".to_owned(), "main".to_owned()] }), vec!["pull", "origin", "main"]);
    assert_eq!(pull(&PullArgs { args: vec![] }), vec!["pull"]);
    assert_eq!(cherry_pick(&CherryPickArgs { args: vec!["-x".to_owned(), "abc".to_owned()] }), vec!["cherry-pick", "-x", "abc"]);
    assert_eq!(revert(&RevertArgs { args: vec!["abc".to_owned()] }), vec!["revert", "--no-edit", "abc"]);
}

#[test]
fn switch_tracks_remote_branches() {
    assert_eq!(switch_cmd("main", true, false), vec!["switch", "main"]);
    assert_eq!(switch_cmd("origin/foo", false, true), vec!["switch", "--track", "origin/foo"]);
    assert_eq!(switch_cmd("foo", false, false), vec!["switch", "foo"]);
    assert_eq!(local_ref("foo"), "refs/heads/foo");
    assert_eq!(remote_ref("origin/foo"), "refs/remotes/origin/foo");
}

fn out(success: bool, stdout: &str, stderr: &str) -> GitOutput {
    GitOutput { success, stdout: stdout.to_owned(), stderr: stderr.to_owned() }
}

#[test]
fn launch_outcomes() {
    assert!(matches!(launch_outcome(out(true, "done", ""), false), LaunchOutcome::Success(_)));
    assert!(matches!(launch_outcome(out(false, "", "CONFLICT"), true), LaunchOutcome::Conflicts(_)));
    match launch_outcome(out(false, " from stdout \n", "  "), false) {
        LaunchOutcome::Failed(reason) => assert_eq!(reason, "from stdout"),
        _ => panic!("expected a failure"),
    }
    match launch_outcome(out(false, "x", " fatal: bad \n"), false) {
        LaunchOutcome::Failed(reason) => assert_eq!(reason, "fatal: bad"),
        _ => panic!("expected a failure"),
    }
}

#[test]
fn menu_steps_after_operation_and_target() {
    match after_operation(0, 0) {
        MenuNext::Run(cmd) => assert_eq!(cmd, vec!["pull"]),
        other => panic!("unexpected {:?}", other),
    }
    assert!(matches!(after_operation(1, 0), MenuNext::NothingToPick));
    assert!(matches!(after_operation(3, 2), MenuNext::PickTarget));
    let items = vec![
        MenuItem::new("main".to_owned(), String::new()),
        MenuItem::new("dev".to_owned(), String::new()),
    ];
    assert_eq!(after_target(1, &items, Some(1)), Some(vec!["merge".to_owned(), "--no-edit".to_owned(), "dev".to_owned()]));
    assert_eq!(after_target(2, &items, Some(0)), Some(vec!["rebase".to_owned(), "main".to_owned()]));
    assert_eq!(after_target(2, &items, None), None);
    assert_eq!(after_target(2, &items, Some(5)), None);
}
