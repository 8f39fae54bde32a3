//! The status line above the panes: the operation, the progress over the
//! files, the current file, and whether it can be written.

use vstd::prelude::*;

use crate::app::{FileEntry, Session};
use crate::text::{decimal, decimal_string};
use crate::ui::menu::GAUGE_CELLS;

verus! {

/// What `str::to_uppercase` gives for a text.
pub uninterp spec fn uppercase(s: Seq<char>) -> Seq<char>;

/// Whether every character of a text is ASCII.
pub open spec fn all_ascii(s: Seq<char>) -> bool {
    forall|i: int| 0 <= i < s.len() ==> (#[trigger] s[i] as u32) < 128
}

/// The text with the ASCII letters a to z raised to A to Z.
pub open spec fn ascii_upper(s: Seq<char>) -> Seq<char> {
    Seq::new(s.len(), |i: int| if 'a' <= s[i] && s[i] <= 'z' { (s[i] as int - 32) as char } else { s[i] })
}

/// `str::to_uppercase`: the text in upper case, by Unicode's rules. As its
/// documentation gives, an ASCII text has its letters a to z raised to A to
/// Z and keeps everything else; what other texts become is only named.
#[verifier::external_body]
fn to_upper(s: &str) -> (r: String)
    ensures
        r@ == uppercase(s@),
        all_ascii(s@) ==> r@ == ascii_upper(s@),
{
    s.to_uppercase()
}

/// How many flags are set.
pub open spec fn count_true(w: Seq<bool>) -> nat
    decreases w.len(),
{
    if w.len() == 0 {
        0
    } else {
        count_true(w.drop_last()) + if w.last() {
            1nat
        } else {
            0nat
        }
    }
}

/// The filled cells of the progress gauge: the share of written files.
pub open spec fn filled_spec(done: nat, total: nat) -> int {
    if total == 0 {
        0int
    } else if (done * 10) / total <= 10 {
        ((done * 10) / total) as int
    } else {
        10
    }
}

/// Conflicts left in a file: those pending in a text file; one for a
/// binary file until a side is chosen.
pub open spec fn pending_of(e: FileEntry) -> nat {
    match e {
        FileEntry::Text(m) => m.pending_conflicts_spec(),
        FileEntry::Binary { choice, .. } => if choice is None {
            1
        } else {
            0
        },
    }
}

/// The parts of the status line.
#[derive(Debug)]
pub struct HeaderParts {
    /// The operation badge, such as ` ⚑ MERGE `
    pub badge: String,
    /// Filled cells of the progress gauge (of `GAUGE_CELLS`)
    pub filled: usize,
    /// Which file of how many
    pub files: String,
    /// The current file's path, padded
    pub path: String,
    /// Whether the current file has no conflict left
    pub ready: bool,
    /// Conflicts left, or that the file can be written
    pub status: String,
}

/// The status line of a session.
pub fn header_parts(session: &Session) -> (h: HeaderParts)
    requires
        session.wf(),
        session.current < session.files@.len(),
        session.files@[session.current as int].wf(),
    ensures
        h.badge@ == " \u{2691} "@ + uppercase(session.op_label@) + " "@,
        all_ascii(session.op_label@) ==> h.badge@ == " \u{2691} "@ + ascii_upper(session.op_label@) + " "@,
        h.filled == filled_spec(count_true(session.written@), session.files@.len()),
        h.files@ == " "@ + decimal((session.current + 1) as nat) + "/"@ + decimal(session.files@.len()) + " 文件 "@,
        h.path@ == " "@ + session.files@[session.current as int].path_spec() + " "@,
        h.ready == (pending_of(session.files@[session.current as int]) == 0),
        h.status@ == if h.ready {
            " \u{2713} 本文件已就绪(w 写盘)"@
        } else {
            " \u{2717} "@ + decimal(pending_of(session.files@[session.current as int])) + " 冲突待解决"@
        },
{
    let mut badge = String::from_str(" \u{2691} ");
    let up = to_upper(session.op_label.as_str());
    badge.append(up.as_str());
    badge.append(" ");

    let mut done: usize = 0;
    let mut i: usize = 0;
    while i < session.written.len()
        invariant
            0 <= i <= session.written@.len(),
            done == count_true(session.written@.take(i as int)),
            done <= i,
        decreases session.written@.len() - i,
    {
        assert(session.written@.take(i + 1).drop_last() =~= session.written@.take(i as int));
        if session.written[i] {
            done = done + 1;
        }
        i = i + 1;
    }
    assert(session.written@.take(session.written@.len() as int) =~= session.written@);
    let total = session.files.len();
    let filled = if total == 0 {
        0
    } else {
        let wide: u128 = (done as u128) * 10 / (total as u128);
        if wide <= 10 {
            wide as usize
        } else {
            GAUGE_CELLS
        }
    };

    let mut files = String::from_str(" ");
    let cur = decimal_string(session.current + 1);
    files.append(cur.as_str());
    files.append("/");
    let tot = decimal_string(total);
    files.append(tot.as_str());
    files.append(" 文件 ");

    let entry = &session.files[session.current];
    let mut path = String::from_str(" ");
    path.append(entry.path());
    path.append(" ");

    let pending: usize = match entry {
        FileEntry::Text(m) => m.pending_conflicts(),
        FileEntry::Binary { choice, .. } => if choice.is_none() {
            1
        } else {
            0
        },
    };
    let ready = pending == 0;
    let status = if ready {
        String::from_str(" \u{2713} 本文件已就绪(w 写盘)")
    } else {
        let mut s = String::from_str(" \u{2717} ");
        let d = decimal_string(pending);
        s.append(d.as_str());
        s.append(" 冲突待解决");
        s
    };
    HeaderParts { badge, filled, files, path, ready, status }
}

} // verus!
