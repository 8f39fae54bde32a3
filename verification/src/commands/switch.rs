//! Switching to another branch; a remote branch first gets a local tracking branch.

use vstd::prelude::*;

use crate::i18n::{I18n, fill, fill_one, tr, tr_f, tr_spec};
use crate::text::{lemma_strings_view, strings_view};
use crate::ui::menu::MenuItem;

verus! {

/// Arguments of the `switch` subcommand.
#[derive(Debug, Clone)]
pub struct SwitchArgs {
    /// Target branch (a local name or a remote one such as origin/foo);
    /// without it a branch picker opens
    pub branch: Option<String>,
}

/// The reference a local branch of this name would have.
pub fn local_ref(target: &str) -> (r: String)
    ensures
        r@ == "refs/heads/"@ + target@,
{
    let mut r = String::from_str("refs/heads/");
    r.append(target);
    r
}

/// The reference a remote tracking branch of this name would have.
pub fn remote_ref(target: &str) -> (r: String)
    ensures
        r@ == "refs/remotes/"@ + target@,
{
    let mut r = String::from_str("refs/remotes/");
    r.append(target);
    r
}

/// The switch command line: a local branch is switched to directly; a
/// remote tracking branch gets a local branch of the same name with
/// `--track`; anything else is left to git (which may create a tracking
/// branch for a bare name, or report the error).
pub fn switch_cmd(target: &str, local_exists: bool, remote_exists: bool) -> (cmd: Vec<String>)
    ensures
        strings_view(cmd@) == if !local_exists && remote_exists {
            seq!["switch"@, "--track"@, target@]
        } else {
            seq!["switch"@, target@]
        },
{
    let v = if local_exists {
        vec![String::from_str("switch"), String::from_str(target)]
    } else if remote_exists {
        vec![String::from_str("switch"), String::from_str("--track"), String::from_str(target)]
    } else {
        vec![String::from_str("switch"), String::from_str(target)]
    };
    proof {
        broadcast use lemma_strings_view;

        if !local_exists && remote_exists {
            assert(strings_view(v@) =~= seq!["switch"@, "--track"@, target@]);
        } else {
            assert(strings_view(v@) =~= seq!["switch"@, target@]);
        }
    }
    v
}

/// The picker entries for branches: local ones first, with no
/// description; then remote ones, marked as remote.
pub fn branch_items(i18n: &I18n, locals: &Vec<String>, remotes: &Vec<String>) -> (items: Vec<MenuItem>)
    ensures
        items@.len() == locals@.len() + remotes@.len(),
        forall|i: int|
            0 <= i < locals@.len() ==> (#[trigger] items@[i]).label@ == locals@[i]@ && items@[i].desc@.len() == 0
                && items@[i].hint@.len() == 0,
        forall|i: int|
            0 <= i < remotes@.len() ==> (#[trigger] items@[locals@.len() + i]).label@ == remotes@[i]@
                && items@[locals@.len() + i].desc@ == tr_spec(*i18n, "menu.remote_mark"@)
                && items@[locals@.len() + i].hint@.len() == 0,
{
    let mut items: Vec<MenuItem> = Vec::new();
    let mut i: usize = 0;
    while i < locals.len()
        invariant
            0 <= i <= locals@.len(),
            items@.len() == i,
            forall|j: int|
                0 <= j < i ==> (#[trigger] items@[j]).label@ == locals@[j]@ && items@[j].desc@.len() == 0
                    && items@[j].hint@.len() == 0,
        decreases locals@.len() - i,
    {
        items.push(MenuItem::new(crate::text::copy_string(&locals[i]), String::new()));
        i = i + 1;
    }
    let mut k: usize = 0;
    while k < remotes.len()
        invariant
            0 <= k <= remotes@.len(),
            items@.len() == locals@.len() + k,
            forall|j: int|
                0 <= j < locals@.len() ==> (#[trigger] items@[j]).label@ == locals@[j]@ && items@[j].desc@.len()
                    == 0 && items@[j].hint@.len() == 0,
            forall|j: int|
                0 <= j < k ==> (#[trigger] items@[locals@.len() + j]).label@ == remotes@[j]@
                    && items@[locals@.len() + j].desc@ == tr_spec(*i18n, "menu.remote_mark"@)
                    && items@[locals@.len() + j].hint@.len() == 0,
        decreases remotes@.len() - k,
    {
        items.push(MenuItem::new(crate::text::copy_string(&remotes[k]), tr(i18n, "menu.remote_mark")));
        k = k + 1;
    }
    items
}

/// The message when switching failed.
pub fn switch_failed_msg(i18n: &I18n, branch: &String) -> (m: String)
    ensures
        m@ == fill_one(tr_spec(*i18n, "switch.failed"@), "branch"@, branch@),
{
    let args = vec![(String::from_str("branch"), crate::text::copy_string(branch))];
    let m = tr_f(i18n, "switch.failed", &args);
    proof {
        reveal_with_fuel(fill, 2);
    }
    m
}

} // verus!
