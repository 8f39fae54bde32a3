//! The operation menu shown when the repository is clean.

use vstd::prelude::*;

use crate::i18n::{I18n, fill_one, tr, tr_f, tr_spec};
use crate::text::{
    chars_of, chars_view, decimal, decimal_string, join, join_newline, lemma_chars_view_take,
    str_lines, str_lines_of, string_of, string_of_range, strings_view, trim_bounds, trim_end_ws,
    trim_ws,
};

use crate::ui::menu::MenuItem;

verus! {

/// Most lines a success notice shows; longer output keeps its end.
pub const NOTICE_LINES: usize = 15;

/// The two streams of a command, each without trailing white space,
/// stdout first, on separate lines.
pub open spec fn combined_output(stdout: Seq<char>, stderr: Seq<char>) -> Seq<char> {
    let text = trim_end_ws(stdout);
    let err = trim_end_ws(stderr);
    if err.len() > 0 {
        if text.len() > 0 {
            text.push('\n') + err
        } else {
            err
        }
    } else {
        text
    }
}

/// The body of a success notice: the combined output; a placeholder
/// message when it is blank; past `NOTICE_LINES` lines, a note of how many
/// leading lines were left out, then the last `NOTICE_LINES` lines.
pub open spec fn notice_spec(i: I18n, stdout: Seq<char>, stderr: Seq<char>) -> Seq<char> {
    let text = combined_output(stdout, stderr);
    let lines = str_lines(text);
    if trim_ws(text).len() == 0 {
        tr_spec(i, "menu.no_output"@)
    } else if lines.len() > NOTICE_LINES {
        let skipped = lines.len() - NOTICE_LINES;
        fill_one(tr_spec(i, "menu.skipped"@), "n"@, decimal(skipped as nat)) + seq!['\n'] + join(
            lines.skip(skipped),
            seq!['\n'],
        )
    } else {
        text
    }
}

/// `s` without trailing white space.
fn trim_end_string(s: &str) -> (t: Vec<char>)
    ensures
        t@ == trim_end_ws(s@),
{
    let c = chars_of(s);
    let mut r = c.len();
    assert(c@.subrange(0, r as int) =~= c@);
    while r > 0 && crate::text::is_whitespace(c[r - 1])
        invariant
            r <= c@.len(),
            c@ == s@,
            trim_end_ws(s@) == trim_end_ws(c@.subrange(0, r as int)),
        decreases r,
    {
        assert(c@.subrange(0, r as int).drop_last() =~= c@.subrange(0, r - 1));
        r = r - 1;
    }
    crate::text::sub_chars(&c, 0, r)
}

/// Turns the captured output of a git command into the body of a notice:
/// stdout and stderr in order, trailing white space removed, and only the
/// end of an overly long output.
pub fn compose_notice(i18n: &I18n, stdout: &str, stderr: &str) -> (s: String)
    ensures
        s@ == notice_spec(*i18n, stdout@, stderr@),
{
    let mut text = trim_end_string(stdout);
    let err = trim_end_string(stderr);
    if err.len() > 0 {
        if text.len() > 0 {
            text.push('\n');
        }
        let ghost before = text@;
        let mut k: usize = 0;
        while k < err.len()
            invariant
                0 <= k <= err@.len(),
                text@ == before + err@.take(k as int),
            decreases err@.len() - k,
        {
            text.push(err[k]);
            assert(err@.take(k + 1) =~= err@.take(k as int).push(err@[k as int]));
            k = k + 1;
        }
        assert(err@.take(err@.len() as int) =~= err@);
    }
    assert(text@ =~= combined_output(stdout@, stderr@));
    let (lo, hi) = trim_bounds(&text, 0, text.len());
    assert(text@.subrange(0, text@.len() as int) =~= text@);
    if lo == hi {
        return tr(i18n, "menu.no_output");
    }
    let all = string_of(&text);
    let lines = str_lines_of(all.as_str());
    if lines.len() > NOTICE_LINES {
        let skipped = lines.len() - NOTICE_LINES;
        let args = vec![(String::from_str("n"), decimal_string(skipped))];
        let mut out = tr_f(i18n, "menu.skipped", &args);
        out.append("\n");
        let mut tail: Vec<String> = Vec::new();
        let mut i = skipped;
        while i < lines.len()
            invariant
                skipped <= i <= lines@.len(),
                strings_view(tail@) == chars_view(lines@).subrange(skipped as int, i as int),
            decreases lines@.len() - i,
        {
            let ghost before = tail@;
            let line = string_of(&lines[i]);
            tail.push(line);
            proof {
                crate::text::lemma_strings_push(before, line);
                lemma_chars_view_take(lines@, i as int);
                assert(chars_view(lines@).subrange(skipped as int, i + 1) =~= chars_view(lines@).subrange(
                    skipped as int,
                    i as int,
                ).push(lines@[i as int]@));
            }
            i = i + 1;
        }
        let joined = join_newline(&tail);
        out.append(joined.as_str());
        proof {
            reveal_strlit("\n");
            assert(chars_view(lines@).subrange(skipped as int, lines@.len() as int) =~= chars_view(
                lines@,
            ).skip(skipped as int));
            assert(args@[0].0@ == "n"@);
            assert(args@[0].1@ == decimal(skipped as nat));
            let t = tr_spec(*i18n, "menu.skipped"@);
            assert(crate::i18n::fill(t, args@, 0) == t);
            assert(crate::i18n::fill(t, args@, 1) == fill_one(t, "n"@, decimal(skipped as nat)));
            assert(strings_view(tail@) =~= str_lines(text@).skip(skipped as int));
            assert(out@ =~= fill_one(t, "n"@, decimal(skipped as nat)) + seq!['\n'] + join(
                str_lines(text@).skip(skipped as int),
                seq!['\n'],
            ));
        }
        out
    } else {
        all
    }
}

/// Most commits the commit pickers show.
pub const COMMIT_LIMIT: usize = 50;

/// The operations of the first-level menu, in order.
pub open spec fn menu_ops() -> Seq<Seq<char>> {
    seq!["pull"@, "merge"@, "rebase"@, "cherry-pick"@, "revert"@]
}

/// The message keys of each operation's description and hint.
pub open spec fn menu_keys() -> Seq<(Seq<char>, Seq<char>)> {
    seq![
        ("menu.pull_desc"@, "menu.pull_hint"@),
        ("menu.merge_desc"@, "menu.merge_hint"@),
        ("menu.rebase_desc"@, "menu.rebase_hint"@),
        ("menu.cherry_desc"@, "menu.cherry_hint"@),
        ("menu.revert_desc"@, "menu.revert_hint"@),
    ]
}

/// One first-level entry.
fn top_item(i18n: &I18n, label: &str, desc: &str, hint: &str) -> (m: MenuItem)
    ensures
        m.label@ == label@,
        m.desc@ == tr_spec(*i18n, desc@),
        m.hint@ == tr_spec(*i18n, hint@),
{
    MenuItem::new(String::from_str(label), tr(i18n, desc)).with_hint(tr(i18n, hint))
}

/// The first-level menu: each operation with its description and hint.
pub fn top_items(i18n: &I18n) -> (items: Vec<MenuItem>)
    ensures
        items@.len() == 5,
        forall|i: int|
            0 <= i < 5 ==> (#[trigger] items@[i]).label@ == menu_ops()[i] && items@[i].desc@ == tr_spec(
                *i18n,
                menu_keys()[i].0,
            ) && items@[i].hint@ == tr_spec(*i18n, menu_keys()[i].1),
{
    let items = vec![
        top_item(i18n, "pull", "menu.pull_desc", "menu.pull_hint"),
        top_item(i18n, "merge", "menu.merge_desc", "menu.merge_hint"),
        top_item(i18n, "rebase", "menu.rebase_desc", "menu.rebase_hint"),
        top_item(i18n, "cherry-pick", "menu.cherry_desc", "menu.cherry_hint"),
        top_item(i18n, "revert", "menu.revert_desc", "menu.revert_hint"),
    ];
    assert(items@[0].label@ == menu_ops()[0] && items@[1].label@ == menu_ops()[1]);
    items
}

/// What the second level of the menu picks for an operation.
#[derive(Debug, Clone, Copy, PartialEq, Eq, Structural)]
pub enum MenuPick {
    /// Nothing: the operation runs as it is (pull)
    Nothing,
    /// A branch (merge, rebase)
    Branch,
    /// One of the recent commits; `others_only` keeps to commits not on
    /// the current branch (cherry-pick), else the current branch's (revert)
    Commit { others_only: bool },
}

/// What the second level picks for operation `action` of the first level.
pub open spec fn pick_spec(action: usize) -> MenuPick {
    if action == 0 {
        MenuPick::Nothing
    } else if action == 1 || action == 2 {
        MenuPick::Branch
    } else {
        MenuPick::Commit { others_only: action == 3 }
    }
}

/// What the second level picks for operation `action` of the first level.
pub fn pick_kind(action: usize) -> (p: MenuPick)
    ensures
        p == pick_spec(action),
{
    if action == 0 {
        MenuPick::Nothing
    } else if action == 1 || action == 2 {
        MenuPick::Branch
    } else {
        MenuPick::Commit { others_only: action == 3 }
    }
}

/// The message key of the second level's title.
pub open spec fn pick_title_key(action: usize) -> Seq<char> {
    if action == 1 {
        "menu.pick_merge"@
    } else if action == 2 {
        "menu.pick_rebase"@
    } else if action == 3 {
        "menu.pick_cherry"@
    } else {
        "menu.pick_revert"@
    }
}

/// The title of the second level.
pub fn pick_title(i18n: &I18n, action: usize) -> (t: String)
    ensures
        t@ == tr_spec(*i18n, pick_title_key(action)),
{
    if action == 1 {
        tr(i18n, "menu.pick_merge")
    } else if action == 2 {
        tr(i18n, "menu.pick_rebase")
    } else if action == 3 {
        tr(i18n, "menu.pick_cherry")
    } else {
        tr(i18n, "menu.pick_revert")
    }
}

/// The notice shown when the second level has nothing to pick: its title
/// and its text.
pub fn empty_pick_notice(i18n: &I18n, action: usize) -> (r: (String, String))
    ensures
        r.0@ == tr_spec(*i18n, "menu.notice_info"@),
        r.1@ == tr_spec(
            *i18n,
            if pick_spec(action) == MenuPick::Branch {
                "menu.no_branches"@
            } else {
                "menu.no_commits"@
            },
        ),
{
    let title = tr(i18n, "menu.notice_info");
    let text = if action == 1 || action == 2 {
        tr(i18n, "menu.no_branches")
    } else {
        tr(i18n, "menu.no_commits")
    };
    (title, text)
}

/// The git command line an operation runs, given what was picked.
pub open spec fn menu_command_spec(action: usize, target: Seq<char>) -> Seq<Seq<char>> {
    if action == 0 {
        seq!["pull"@]
    } else if action == 1 {
        seq!["merge"@, "--no-edit"@, target]
    } else if action == 2 {
        seq!["rebase"@, target]
    } else if action == 3 {
        seq!["cherry-pick"@, target]
    } else {
        seq!["revert"@, "--no-edit"@, target]
    }
}

/// The git command line an operation runs: pull as it is; merge (without
/// editing the message) or rebase onto the picked branch; cherry-pick, or
/// revert (without editing the message), the picked commit.
pub fn menu_command(action: usize, target: &String) -> (cmd: Vec<String>)
    ensures
        strings_view(cmd@) == menu_command_spec(action, target@),
{
    let t = crate::text::copy_string(target);
    let v = if action == 0 {
        vec![String::from_str("pull")]
    } else if action == 1 {
        vec![String::from_str("merge"), String::from_str("--no-edit"), t]
    } else if action == 2 {
        vec![String::from_str("rebase"), t]
    } else if action == 3 {
        vec![String::from_str("cherry-pick"), t]
    } else {
        vec![String::from_str("revert"), String::from_str("--no-edit"), t]
    };
    proof {
        broadcast use crate::text::lemma_strings_view;

        assert(strings_view(v@) =~= menu_command_spec(action, target@));
    }
    v
}

/// What the menu does once an operation was picked and its targets listed.
#[derive(Debug)]
pub enum MenuNext {
    /// Run this git command line
    Run(Vec<String>),
    /// Nothing to pick: show the notice, then the operations again
    NothingToPick,
    /// Let the user pick one of the targets
    PickTarget,
}

/// The step after operation `action` was picked, with `targets` entries
/// listed for its second level: an operation without a target runs at once;
/// an empty list gets its notice; else a target is picked.
pub fn after_operation(action: usize, targets: usize) -> (r: MenuNext)
    ensures
        pick_spec(action) == MenuPick::Nothing ==> (r matches MenuNext::Run(cmd) && strings_view(cmd@)
            == menu_command_spec(action, Seq::empty())),
        pick_spec(action) != MenuPick::Nothing && targets == 0 ==> r is NothingToPick,
        pick_spec(action) != MenuPick::Nothing && targets > 0 ==> r is PickTarget,
{
    if pick_kind(action) == MenuPick::Nothing {
        let none = String::new();
        MenuNext::Run(menu_command(action, &none))
    } else if targets == 0 {
        MenuNext::NothingToPick
    } else {
        MenuNext::PickTarget
    }
}

/// The command line once a target was picked (`Some` index into `items`);
/// None when the pick was cancelled (or named no entry), which goes back to
/// the operations.
pub fn after_target(action: usize, items: &Vec<MenuItem>, picked: Option<usize>) -> (r: Option<Vec<String>>)
    ensures
        match picked {
            Some(i) => if i < items@.len() {
                r matches Some(cmd) && strings_view(cmd@) == menu_command_spec(action, items@[i as int].label@)
            } else {
                r is None
            },
            None => r is None,
        },
{
    match picked {
        Some(i) => if i < items.len() {
            Some(menu_command(action, &items[i].label))
        } else {
            None
        },
        None => None,
    }
}

/// The picker entries for `--oneline` commits: the short hash and the
/// subject, split at the first space; a line without a space is left out.
pub open spec fn commit_items_spec(lines: Seq<Seq<char>>) -> Seq<(Seq<char>, Seq<char>)>
    decreases lines.len(),
{
    if lines.len() == 0 {
        Seq::empty()
    } else {
        let prev = commit_items_spec(lines.drop_last());
        match crate::text::split_once(lines.last(), ' ') {
            Some((hash, subject)) => prev.push((hash, subject)),
            None => prev,
        }
    }
}

/// The (label, description) pairs of menu entries.
pub open spec fn items_view(v: Seq<MenuItem>) -> Seq<(Seq<char>, Seq<char>)> {
    v.map_values(|m: MenuItem| (m.label@, m.desc@))
}

/// The picker entries for `--oneline` commits.
pub fn commit_items(lines: &Vec<String>) -> (items: Vec<MenuItem>)
    ensures
        items_view(items@) == commit_items_spec(strings_view(lines@)),
{
    let mut items: Vec<MenuItem> = Vec::new();
    let mut i: usize = 0;
    while i < lines.len()
        invariant
            0 <= i <= lines@.len(),
            items_view(items@) == commit_items_spec(strings_view(lines@).take(i as int)),
        decreases lines@.len() - i,
    {
        let chars = chars_of(lines[i].as_str());
        proof {
            assert(strings_view(lines@).take(i + 1).drop_last() =~= strings_view(lines@).take(i as int));
            assert(strings_view(lines@).take(i + 1).last() == lines@[i as int]@);
        }
        let ghost before = items@;
        match crate::text::find_char(&chars, ' ') {
            Some(k) => {
                proof {
                    crate::text::lemma_first_index(chars@, ' ');
                }
                let n = chars.len();
                assert(k < n);
                let hash = string_of_range(&chars, 0, k);
                let subject = string_of_range(&chars, k + 1, n);
                items.push(MenuItem::new(hash, subject));
                proof {
                    crate::text::lemma_first_index(chars@, ' ');
                    assert(chars@.subrange(0, k as int) =~= chars@.take(k as int));
                    assert(chars@.subrange(k + 1, chars@.len() as int) =~= chars@.skip(k + 1));
                    assert(items_view(items@) =~= items_view(before).push((chars@.take(k as int), chars@.skip(k + 1))));
                }
            },
            None => {},
        }
        i = i + 1;
    }
    assert(strings_view(lines@).take(lines@.len() as int) =~= strings_view(lines@));
    items
}

/// The line flashed while a command runs: `$ git` and the command.
pub fn flash_line(cmd: &Vec<String>) -> (s: String)
    ensures
        s@ == "$ git "@ + join(strings_view(cmd@), " "@),
{
    let mut s = String::from_str("$ git ");
    let j = crate::text::join_strings(cmd, " ");
    s.append(j.as_str());
    s
}

/// The title of the notice after a command ran: done or failed, naming
/// the subcommand.
pub fn outcome_title(i18n: &I18n, sub: &String, failed: bool) -> (t: String)
    ensures
        t@ == fill_one(
            tr_spec(
                *i18n,
                if failed {
                    "menu.failed"@
                } else {
                    "menu.done"@
                },
            ),
            "cmd"@,
            sub@,
        ),
{
    let args = vec![(String::from_str("cmd"), crate::text::copy_string(sub))];
    let t = if failed {
        tr_f(i18n, "menu.failed", &args)
    } else {
        tr_f(i18n, "menu.done", &args)
    };
    proof {
        reveal_with_fuel(crate::i18n::fill, 2);
    }
    t
}

} // verus!
