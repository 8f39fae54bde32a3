//! The conflict-resolution loop behind every entry point: which files make
//! up a session, and what happens between sessions (`--continue`, another
//! round of conflicts, or done). The program reads the stages from git and
//! runs the commands; the decisions are here.

use vstd::prelude::*;

use crate::app::{FileEntry, FileMerge, Session, ends_nl};
use crate::merge::merge_text_result;
use crate::git::{RepoState, op_name_spec};
use crate::i18n::{I18n, fill, fill_one, tr, tr_f, tr_spec};
use crate::merge::MergeResult;
use crate::text::{decimal, decimal_string};

verus! {

/// The three stages of a conflicted file as git holds them (a missing stage
/// is empty).
#[derive(Debug)]
pub struct StageBlobs {
    /// Path of the file
    pub path: String,
    /// Common ancestor
    pub base: Vec<u8>,
    /// Local side
    pub ours: Vec<u8>,
    /// Remote side
    pub theirs: Vec<u8>,
}

/// The text `String::from_utf8_lossy` reads from some bytes.
pub uninterp spec fn utf8_lossy(b: Seq<u8>) -> Seq<char>;

/// `String::from_utf8_lossy`: the bytes as text, each invalid sequence
/// replaced by U+FFFD. The contract only names the result: it is a function
/// of the bytes alone.
#[verifier::external_body]
fn lossy_text(b: &Vec<u8>) -> (s: String)
    ensures
        s@ == utf8_lossy(b@),
{
    String::from_utf8_lossy(b.as_slice()).into_owned()
}

/// Whether some byte is NUL (the file is then treated as binary).
pub open spec fn has_nul(b: Seq<u8>) -> bool {
    exists|i: int| 0 <= i < b.len() && b[i] == 0
}

/// Whether some byte is NUL.
fn contains_nul(b: &Vec<u8>) -> (r: bool)
    ensures
        r == has_nul(b@),
{
    let mut i: usize = 0;
    while i < b.len()
        invariant
            0 <= i <= b@.len(),
            forall|j: int| 0 <= j < i ==> b@[j] != 0,
        decreases b@.len() - i,
    {
        if b[i] == 0 {
            return true;
        }
        i = i + 1;
    }
    false
}

/// Whether the texts of the three stages are small enough to be merged
/// (a machine limit).
pub open spec fn texts_fit(base: Seq<char>, ours: Seq<char>, theirs: Seq<char>) -> bool {
    base.len() + ours.len() + 1 <= usize::MAX && base.len() + theirs.len() + 1 <= usize::MAX
}

/// What a file of a session is, given its stages: a binary file when any
/// stage holds a NUL byte (the whole local and remote sides, nothing chosen);
/// else a text file merged three ways from the stages read as UTF-8.
pub open spec fn entry_spec(path: Seq<char>, base: Seq<u8>, ours: Seq<u8>, theirs: Seq<u8>, e: FileEntry) -> bool {
    if has_nul(base) || has_nul(ours) || has_nul(theirs) {
        e matches FileEntry::Binary { path: p, ours: o, theirs: t, choice } && p@ == path && o@ == ours && t@ == theirs
            && choice is None
    } else {
        e matches FileEntry::Text(m) && exists|r: MergeResult|
            #[trigger] merge_text_result(utf8_lossy(base), utf8_lossy(ours), utf8_lossy(theirs), r@) && m.fresh(
                path,
                r.chunks@,
                r@,
                ends_nl(utf8_lossy(base)) || ends_nl(utf8_lossy(ours)) || ends_nl(utf8_lossy(theirs)),
            )
    }
}

/// A file is picked whole as binary exactly when one of its three stages
/// holds a NUL byte, wherever it stands in the stage; every other file is
/// merged line by line as text.
pub proof fn law_binary_iff_nul_byte(path: Seq<char>, base: Seq<u8>, ours: Seq<u8>, theirs: Seq<u8>, e: FileEntry)
    requires
        entry_spec(path, base, ours, theirs, e),
    ensures
        (e is Binary) <==> ((exists|i: int| 0 <= i < base.len() && base[i] == 0u8) || (exists|i: int|
            0 <= i < ours.len() && ours[i] == 0u8) || (exists|i: int| 0 <= i < theirs.len() && theirs[i]
            == 0u8)),
        (e is Text) <==> !((exists|i: int| 0 <= i < base.len() && base[i] == 0u8) || (exists|i: int|
            0 <= i < ours.len() && ours[i] == 0u8) || (exists|i: int| 0 <= i < theirs.len() && theirs[i]
            == 0u8)),
{
}

/// The session file for one conflicted file; None only when its texts are
/// too large to be merged on this machine.
pub fn entry_of(blobs: StageBlobs) -> (r: Option<FileEntry>)
    ensures
        match r {
            Some(e) => entry_spec(blobs.path@, blobs.base@, blobs.ours@, blobs.theirs@, e),
            None => !has_nul(blobs.base@) && !has_nul(blobs.ours@) && !has_nul(blobs.theirs@) && !texts_fit(
                utf8_lossy(blobs.base@),
                utf8_lossy(blobs.ours@),
                utf8_lossy(blobs.theirs@),
            ),
        },
{
    let StageBlobs { path, base, ours, theirs } = blobs;
    if contains_nul(&base) || contains_nul(&ours) || contains_nul(&theirs) {
        return Some(FileEntry::Binary { path, ours, theirs, choice: None });
    }
    let b = lossy_text(&base);
    let o = lossy_text(&ours);
    let t = lossy_text(&theirs);
    let (bs, os, ts) = (b.as_str(), o.as_str(), t.as_str());
    let (nb, no, nt) = (bs.unicode_len(), os.unicode_len(), ts.unicode_len());
    if nb >= usize::MAX - no || nb >= usize::MAX - nt {
        return None;
    }
    let ghost p = path@;
    let m = FileMerge::from_three_way(path, bs, os, ts);
    assert(bs@ == utf8_lossy(base@) && os@ == utf8_lossy(ours@) && ts@ == utf8_lossy(theirs@));
    let e = FileEntry::Text(m);
    assert(entry_spec(p, base@, ours@, theirs@, e));
    Some(e)
}

/// The session over the conflicted files, labelled with the operation in
/// progress; None when a file is too large to be merged on this machine.
pub fn session_of(files: Vec<StageBlobs>, op_label: String) -> (r: Option<Session>)
    ensures
        match r {
            Some(s) => {
                &&& s.wf()
                &&& s.files@.len() == files@.len()
                &&& s.current == 0
                &&& s.op_label@ == op_label@
                &&& s.folded
                &&& forall|i: int| 0 <= i < s.written@.len() ==> !#[trigger] s.written@[i]
                &&& forall|i: int|
                    0 <= i < files@.len() ==> entry_spec(
                        #[trigger] files@[i].path@,
                        files@[i].base@,
                        files@[i].ours@,
                        files@[i].theirs@,
                        s.files@[i],
                    )
            },
            None => exists|i: int|
                0 <= i < files@.len() && !has_nul(#[trigger] files@[i].base@) && !has_nul(files@[i].ours@)
                    && !has_nul(files@[i].theirs@) && !texts_fit(
                    utf8_lossy(files@[i].base@),
                    utf8_lossy(files@[i].ours@),
                    utf8_lossy(files@[i].theirs@),
                ),
        },
{
    let ghost given = files@;
    let mut entries: Vec<FileEntry> = Vec::new();
    let mut rest = files;
    // Files are taken from the back, so they are handled in reverse and
    // then put in order.
    let n = rest.len();
    let mut k: usize = 0;
    while k < n
        invariant
            0 <= k <= n,
            n == given.len(),
            given == files@,
            rest@ == given.take(n - k),
            entries@.len() == k,
            forall|j: int|
                0 <= j < k ==> entry_spec(
                    #[trigger] given[n - 1 - j].path@,
                    given[n - 1 - j].base@,
                    given[n - 1 - j].ours@,
                    given[n - 1 - j].theirs@,
                    entries@[j],
                ),
        decreases n - k,
    {
        let blobs = rest.pop().unwrap();
        assert(blobs == given[n - 1 - k]);
        match entry_of(blobs) {
            Some(e) => entries.push(e),
            None => {
                return None;
            },
        }
        assert(rest@ =~= given.take(n - k - 1));
        k = k + 1;
    }
    let mut ordered: Vec<FileEntry> = Vec::new();
    let mut m: usize = 0;
    while m < n
        invariant
            0 <= m <= n,
            n == given.len(),
            entries@.len() == n - m,
            ordered@.len() == m,
            forall|j: int|
                0 <= j < n - m ==> entry_spec(
                    #[trigger] given[n - 1 - j].path@,
                    given[n - 1 - j].base@,
                    given[n - 1 - j].ours@,
                    given[n - 1 - j].theirs@,
                    entries@[j],
                ),
            forall|j: int|
                0 <= j < m ==> entry_spec(
                    #[trigger] given[j].path@,
                    given[j].base@,
                    given[j].ours@,
                    given[j].theirs@,
                    ordered@[j],
                ),
        decreases n - m,
    {
        let e = entries.pop().unwrap();
        assert(n - 1 - (n - m - 1) == m);
        ordered.push(e);
        m = m + 1;
    }
    Some(Session::new(ordered, op_label))
}

/// What the loop does when a session is over, or before the first one.
#[derive(Debug, Clone, Copy, PartialEq, Eq, Structural)]
pub enum ResolveNext {
    /// Nothing is left: the repository is clean
    Done,
    /// No conflicted files, but an operation is in progress: run its `--continue`
    Continue(RepoState),
    /// Conflicted files are waiting: open a session on them
    Resolve,
}

/// Decides the next step from git's state: with conflicted files, resolve
/// them; without, continue the operation in progress, or finish.
pub fn resolve_next(conflicted: usize, state: RepoState) -> (r: ResolveNext)
    ensures
        r == if conflicted > 0 {
            ResolveNext::Resolve
        } else if state == RepoState::Clean {
            ResolveNext::Done
        } else {
            ResolveNext::Continue(state)
        },
{
    if conflicted > 0 {
        ResolveNext::Resolve
    } else if state == RepoState::Clean {
        ResolveNext::Done
    } else {
        ResolveNext::Continue(state)
    }
}

/// What follows a `--continue`.
#[derive(Debug)]
pub enum AfterContinue {
    /// It went through: look at the repository again
    Again,
    /// It failed with new conflicts (the next commit of a rebase): another round
    NextRound,
    /// It failed for another reason: stop with this message
    Failed(String),
}

/// The message for a failed `--continue`.
pub open spec fn continue_failed_msg(i: I18n, state: RepoState) -> Seq<char> {
    fill_one(tr_spec(i, "resolve.continue_failed"@), "op"@, op_name_spec(state))
}

/// Decides what follows a `--continue`: success loops; a failure with new
/// conflicts starts another round; any other failure is reported.
pub fn after_continue(i18n: &I18n, success: bool, conflicted: usize, state: RepoState) -> (r: AfterContinue)
    ensures
        success ==> r is Again,
        !success && conflicted > 0 ==> r is NextRound,
        !success && conflicted == 0 ==> (r matches AfterContinue::Failed(m) && m@ == continue_failed_msg(*i18n, state)),
{
    if success {
        AfterContinue::Again
    } else if conflicted > 0 {
        AfterContinue::NextRound
    } else {
        let args = vec![(String::from_str("op"), String::from_str(state.op_name()))];
        let m = tr_f(i18n, "resolve.continue_failed", &args);
        proof {
            reveal_with_fuel(fill, 2);
        }
        AfterContinue::Failed(m)
    }
}

/// The progress line printed while reading file `index` of `n`.
pub open spec fn reading_msg_spec(i: I18n, index: nat, n: nat, path: Seq<char>) -> Seq<char> {
    fill_one(
        fill_one(fill_one(tr_spec(i, "resolve.reading"@), "i"@, decimal(index + 1)), "n"@, decimal(n)),
        "path"@,
        path,
    )
}

/// The progress line printed while reading file `index` (from 0) of `n`.
pub fn reading_msg(i18n: &I18n, index: usize, n: usize, path: &String) -> (m: String)
    requires
        index < usize::MAX,
    ensures
        m@ == reading_msg_spec(*i18n, index as nat, n as nat, path@),
{
    let args = vec![
        (String::from_str("i"), decimal_string(index + 1)),
        (String::from_str("n"), decimal_string(n)),
        (String::from_str("path"), crate::text::copy_string(path)),
    ];
    let m = tr_f(i18n, "resolve.reading", &args);
    proof {
        reveal_with_fuel(fill, 4);
    }
    m
}

/// The line announcing how many conflicted files were found.
pub fn found_msg(i18n: &I18n, n: usize) -> (m: String)
    ensures
        m@ == fill_one(tr_spec(*i18n, "resolve.found"@), "n"@, decimal(n as nat)),
{
    let args = vec![(String::from_str("n"), decimal_string(n))];
    let m = tr_f(i18n, "resolve.found", &args);
    proof {
        reveal_with_fuel(fill, 2);
    }
    m
}

} // verus!
