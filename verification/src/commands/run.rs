//! merge / rebase / pull / cherry-pick / revert: the git command line each
//! one launches, and how a launch ended.

use vstd::prelude::*;

use crate::git::{GitOutput, trim_string};
use crate::text::{lemma_strings_view, strings_view, trim_ws};

verus! {

/// Arguments of `merge`.
#[derive(Debug, Clone)]
pub struct MergeArgs {
    /// The reference to merge into the current branch (branch, tag or commit)
    pub target: String,
}

/// Arguments of `rebase`.
#[derive(Debug, Clone)]
pub struct RebaseArgs {
    /// The reference to rebase onto
    pub target: String,
}

/// Arguments of `pull`, all passed on to `git pull`.
#[derive(Debug, Clone)]
pub struct PullArgs {
    /// Such as `origin main` or `--rebase`
    pub args: Vec<String>,
}

/// Arguments of `cherry-pick`, all passed on (several commits and options allowed).
#[derive(Debug, Clone)]
pub struct CherryPickArgs {
    /// Such as `abc123` or `-x A B`
    pub args: Vec<String>,
}

/// Arguments of `revert`, all passed on (several commits and options allowed).
#[derive(Debug, Clone)]
pub struct RevertArgs {
    /// Such as `abc123` or `HEAD~2..HEAD`
    pub args: Vec<String>,
}

/// `prefix` followed by copies of `rest`.
fn with_prefix(prefix: Vec<String>, rest: &Vec<String>) -> (v: Vec<String>)
    ensures
        strings_view(v@) == strings_view(prefix@) + strings_view(rest@),
{
    let mut v = prefix;
    crate::text::append_lines(&mut v, rest);
    v
}

/// The command line of `merge`: `merge --no-edit <target>`.
pub fn merge(args: &MergeArgs) -> (cmd: Vec<String>)
    ensures
        strings_view(cmd@) == seq!["merge"@, "--no-edit"@, args.target@],
{
    let v = vec![String::from_str("merge"), String::from_str("--no-edit"), crate::text::copy_string(&args.target)];
    proof {
        broadcast use lemma_strings_view;

        assert(strings_view(v@) =~= seq!["merge"@, "--no-edit"@, args.target@]);
    }
    v
}

/// The command line of `rebase`: `rebase <target>`.
pub fn rebase(args: &RebaseArgs) -> (cmd: Vec<String>)
    ensures
        strings_view(cmd@) == seq!["rebase"@, args.target@],
{
    let v = vec![String::from_str("rebase"), crate::text::copy_string(&args.target)];
    proof {
        broadcast use lemma_strings_view;

        assert(strings_view(v@) =~= seq!["rebase"@, args.target@]);
    }
    v
}

/// The command line of `pull`: `pull` and the passed arguments.
pub fn pull(args: &PullArgs) -> (cmd: Vec<String>)
    ensures
        strings_view(cmd@) == seq!["pull"@] + strings_view(args.args@),
{
    let p = vec![String::from_str("pull")];
    proof {
        broadcast use lemma_strings_view;

        assert(strings_view(p@) =~= seq!["pull"@]);
    }
    with_prefix(p, &args.args)
}

/// The command line of `cherry-pick`: `cherry-pick` and the passed arguments.
pub fn cherry_pick(args: &CherryPickArgs) -> (cmd: Vec<String>)
    ensures
        strings_view(cmd@) == seq!["cherry-pick"@] + strings_view(args.args@),
{
    let p = vec![String::from_str("cherry-pick")];
    proof {
        broadcast use lemma_strings_view;

        assert(strings_view(p@) =~= seq!["cherry-pick"@]);
    }
    with_prefix(p, &args.args)
}

/// The command line of `revert`: `revert --no-edit` and the passed arguments.
pub fn revert(args: &RevertArgs) -> (cmd: Vec<String>)
    ensures
        strings_view(cmd@) == seq!["revert"@, "--no-edit"@] + strings_view(args.args@),
{
    let p = vec![String::from_str("revert"), String::from_str("--no-edit")];
    proof {
        broadcast use lemma_strings_view;

        assert(strings_view(p@) =~= seq!["revert"@, "--no-edit"@]);
    }
    with_prefix(p, &args.args)
}

/// How a git operation launched from the menu ended.
#[derive(Debug, Clone)]
pub enum LaunchOutcome {
    /// Done without conflicts (with the captured output, to replay)
    Success(GitOutput),
    /// Stopped on conflicts that are now to be resolved
    Conflicts(GitOutput),
    /// Failed for another reason, given as text to show
    Failed(String),
}

/// The outcome of a launched operation: success when git succeeded, else
/// conflicts when files are conflicted, else a failure whose reason is the
/// trimmed stderr, or the trimmed stdout when stderr says nothing.
pub fn launch_outcome(out: GitOutput, has_conflicts: bool) -> (o: LaunchOutcome)
    ensures
        out.success ==> o == LaunchOutcome::Success(out),
        !out.success && has_conflicts ==> o == LaunchOutcome::Conflicts(out),
        !out.success && !has_conflicts ==> (o matches LaunchOutcome::Failed(reason) && reason@ == if trim_ws(
            out.stderr@,
        ).len() == 0 {
            trim_ws(out.stdout@)
        } else {
            trim_ws(out.stderr@)
        }),
{
    if out.success {
        return LaunchOutcome::Success(out);
    }
    if has_conflicts {
        return LaunchOutcome::Conflicts(out);
    }
    let stderr = trim_string(&out.stderr);
    let stdout = trim_string(&out.stdout);
    let reason = if stderr.as_str().is_empty() {
        stdout
    } else {
        stderr
    };
    LaunchOutcome::Failed(reason)
}

} // verus!
