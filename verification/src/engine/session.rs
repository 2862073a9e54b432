//! Bookkeeping of the browser around file operations: which paths a rename
//! uses, what a paste or a finished background job records for undo and
//! reports, when a drop moves anything, and the status line's texts. The
//! operations themselves are the caller's I/O.
use vstd::prelude::*;

use crate::engine::format::{dec, decimal};
use crate::engine::path::{
    file_name_or_empty, file_name_text, join, join_spec, parent_chars, path_parent_spec,
};
use crate::engine::undo::UndoAction;
use crate::engine::worker::{JobCompleted, JobKind};
use crate::text::{
    chars_of, contains_char, eq_chars, push_all, push_str, str_eq, string_of, trim, trimmed,
};

verus! {

/// The paths of renaming `from` to `to` in `cwd`, and the new name: the new
/// name is trimmed, and must be non-empty, differ from the old name and hold
/// no `/`.
pub open spec fn rename_spec(cwd: Seq<char>, from: Seq<char>, to: Seq<char>) -> Option<
    (Seq<char>, Seq<char>, Seq<char>),
> {
    let t = trim(to);
    if t.len() == 0 || t == from || t.contains('/') {
        None
    } else {
        Some((join_spec(cwd, from), join_spec(cwd, t), t))
    }
}

/// The source path, target path and new name of a rename (see
/// [`rename_spec`]); `None` when the new name is refused.
pub fn rename_paths(cwd: &str, from_name: &str, to_name: &str) -> (r: Option<(String, String, String)>)
    ensures
        match r {
            Some((a, b, t)) => rename_spec(cwd@, from_name@, to_name@) == Some((a@, b@, t@)),
            None => rename_spec(cwd@, from_name@, to_name@) is None,
        },
{
    let c = chars_of(to_name);
    let t = trimmed(c.as_slice());
    let f = chars_of(from_name);
    if t.len() == 0 || eq_chars(t.as_slice(), f.as_slice()) || contains_char(t.as_slice(), '/') {
        return None;
    }
    let name = string_of(t.as_slice());
    let from = join(cwd, from_name);
    let to = join(cwd, name.as_str());
    Some((from, to, name))
}

/// The destinations that were made, in order.
pub open spec fn made(rs: Seq<Result<String, String>>) -> Seq<String>
    decreases rs.len(),
{
    if rs.len() == 0 {
        Seq::empty()
    } else {
        match rs.last() {
            Ok(d) => made(rs.drop_last()).push(d),
            Err(_) => made(rs.drop_last()),
        }
    }
}

/// The last failure among the first `k` results: its position and error.
pub open spec fn last_failure(rs: Seq<Result<String, String>>, k: int) -> Option<(int, Seq<char>)>
    decreases k,
{
    if k <= 0 || k > rs.len() {
        None
    } else {
        match rs[k - 1] {
            Err(e) => Some((k - 1, e@)),
            Ok(_) => last_failure(rs, k - 1),
        }
    }
}

proof fn lemma_last_failure(rs: Seq<Result<String, String>>, k: int)
    ensures
        last_failure(rs, k) matches Some((j, e)) ==> (rs[j] matches Err(x) && x@ == e && 0 <= j < k),
    decreases k,
{
    if 0 < k <= rs.len() {
        lemma_last_failure(rs, k - 1);
    }
}

/// `N item` or `N items`.
pub open spec fn items_text(n: nat) -> Seq<char> {
    dec(n) + " item"@ + if n == 1 {
        ""@
    } else {
        "s"@
    }
}

/// What a paste of `sources` (a cut, or a copy) records, given each item's
/// result (the destination made, or the error).
pub struct PasteOutcome {
    /// The undo step: a cut always records a move, a copy records the
    /// copies when any were made.
    pub undo: Option<UndoAction>,
    /// A cut whose every item moved empties the clipboard.
    pub clear_clipboard: bool,
    /// The status line after the paste.
    pub status: Option<String>,
    /// The listing changed.
    pub refresh: bool,
}

/// The status after a paste: the count of items moved or copied when any
/// were, else the last failure.
pub open spec fn paste_status(cut: bool, sources: Seq<String>, rs: Seq<Result<String, String>>) -> Option<
    Seq<char>,
> {
    let done = made(rs).len();
    if done > 0 {
        Some((if cut {
            "Moved "@
        } else {
            "Copied "@
        }) + items_text(done))
    } else {
        match last_failure(rs, rs.len() as int) {
            Some((i, e)) => Some("Cannot paste "@ + file_name_or_empty(sources[i]@) + ": "@ + e),
            None => None,
        }
    }
}

/// Bookkeeping of a paste (see [`PasteOutcome`]); `results` holds one result
/// per source, in order.
pub fn paste_outcome(cut: bool, sources: Vec<String>, results: &Vec<Result<String, String>>) -> (r:
    PasteOutcome)
    requires
        results@.len() == sources@.len(),
    ensures
        cut ==> (r.undo matches Some(UndoAction::Move { sources: s, destinations: d }) && s
            == sources && d@ == made(results@)),
        !cut ==> (made(results@).len() > 0 ==> (r.undo matches Some(
            UndoAction::Copy { destinations: d },
        ) && d@ == made(results@))) && (made(results@).len() == 0 ==> r.undo is None),
        r.clear_clipboard == (cut && made(results@).len() == sources@.len()),
        r.refresh == (made(results@).len() > 0),
        match r.status {
            Some(t) => paste_status(cut, sources@, results@) == Some(t@),
            None => paste_status(cut, sources@, results@) is None,
        },
{
    let mut dests: Vec<String> = Vec::new();
    let mut failure: Option<usize> = None;
    let mut i: usize = 0;
    assert(results@.take(0) =~= Seq::<Result<String, String>>::empty());
    while i < results.len()
        invariant
            i <= results@.len() == sources@.len(),
            dests@ == made(results@.take(i as int)),
            match failure {
                Some(k) => last_failure(results@, i as int) matches Some((j, _)) && j == k && k < i,
                None => last_failure(results@, i as int) is None,
            },
        decreases results.len() - i,
    {
        assert(results@.take(i + 1).drop_last() =~= results@.take(i as int));
        match &results[i] {
            Ok(d) => {
                dests.push(d.clone());
            },
            Err(_) => {
                failure = Some(i);
            },
        }
        i = i + 1;
    }
    assert(results@.take(results@.len() as int) =~= results@);
    let done = dests.len();
    let ghost all = sources@;
    let status = if done > 0 {
        let mut m = if cut {
            chars_of("Moved ")
        } else {
            chars_of("Copied ")
        };
        let ghost pre = m@;
        let d = decimal(done as u64);
        push_all(&mut m, d.as_slice());
        push_str(&mut m, " item");
        if done != 1 {
            push_str(&mut m, "s");
        } else {
            proof {
                reveal_strlit("");
                assert(m@ =~= m@ + ""@);
            }
        }
        assert(m@ =~= pre + items_text(done as nat));
        Some(string_of(m.as_slice()))
    } else {
        match failure {
            Some(k) => {
                proof {
                    lemma_last_failure(results@, results@.len() as int);
                }
                let e = match &results[k] {
                    Ok(_) => String::new(),
                    Err(e) => e.clone(),
                };
                let mut m = chars_of("Cannot paste ");
                let n = file_name_text(sources[k].as_str());
                push_str(&mut m, n.as_str());
                push_str(&mut m, ": ");
                push_str(&mut m, e.as_str());
                Some(string_of(m.as_slice()))
            },
            None => None,
        }
    };
    let clear = cut && done == sources.len();
    let undo = if cut {
        Some(UndoAction::Move { sources, destinations: dests })
    } else if done > 0 {
        Some(UndoAction::Copy { destinations: dests })
    } else {
        None
    };
    PasteOutcome { undo, clear_clipboard: clear, status, refresh: done > 0 }
}

/// The undo step and status a finished background job gives: the copies or
/// moves it made (when it made any), and its error, which takes the status
/// line.
pub open spec fn job_status(job: JobCompleted) -> Option<Seq<char>> {
    match job.error {
        Some(e) => Some("Operation error: "@ + e@),
        None => if job.created_destinations@.len() > 0 {
            Some(
                (match job.kind {
                    JobKind::Copy { .. } => "Copied "@,
                    JobKind::Move { .. } => "Moved "@,
                }) + dec(job.created_destinations@.len()) + " item(s)"@,
            )
        } else {
            None
        },
    }
}

/// The undo step and status of a finished background job (see
/// [`job_status`]).
pub fn job_outcome(job: JobCompleted) -> (r: (Option<UndoAction>, Option<String>))
    ensures
        job.created_destinations@.len() == 0 ==> r.0 is None,
        job.created_destinations@.len() > 0 ==> match job.kind {
            JobKind::Copy { .. } => r.0 == Some(
                UndoAction::Copy { destinations: job.created_destinations },
            ),
            JobKind::Move { sources, .. } => r.0 == Some(
                UndoAction::Move { sources, destinations: job.created_destinations },
            ),
        },
        match r.1 {
            Some(t) => job_status(job) == Some(t@),
            None => job_status(job) is None,
        },
{
    let ghost j = job;
    let count = job.created_destinations.len();
    let status = match &job.error {
        Some(e) => {
            let mut m = chars_of("Operation error: ");
            push_str(&mut m, e.as_str());
            Some(string_of(m.as_slice()))
        },
        None => if count > 0 {
            let mut m = match &job.kind {
                JobKind::Copy { .. } => chars_of("Copied "),
                JobKind::Move { .. } => chars_of("Moved "),
            };
            let d = decimal(count as u64);
            push_all(&mut m, d.as_slice());
            push_str(&mut m, " item(s)");
            Some(string_of(m.as_slice()))
        } else {
            None
        },
    };
    let undo = if count == 0 {
        None
    } else {
        match job.kind {
            JobKind::Copy { .. } => Some(UndoAction::Copy { destinations: job.created_destinations }),
            JobKind::Move { sources, .. } => Some(
                UndoAction::Move { sources, destinations: job.created_destinations },
            ),
        }
    };
    (undo, status)
}

/// Whether dropping `src` on the directory `dst` moves anything: not onto
/// itself, nor into the directory it is already in.
pub open spec fn drop_moves(src: Seq<char>, dst: Seq<char>) -> bool {
    src != dst && path_parent_spec(src) != Some(dst)
}

/// Whether a drop of `src` on `dst` moves anything (see [`drop_moves`]).
pub fn drop_target_ok(src: &str, dst: &str) -> (r: bool)
    ensures
        r == drop_moves(src@, dst@),
{
    if str_eq(src, dst) {
        return false;
    }
    let c = chars_of(src);
    let d = chars_of(dst);
    match parent_chars(c.as_slice()) {
        Some(p) => !eq_chars(p.as_slice(), d.as_slice()),
        None => true,
    }
}

/// A message for the status line.
pub enum Notice {
    NotADirectory(String),
    NewTab,
    TabClosed,
    Thumbnails(bool),
    CannotOpen { name: String, error: String },
    Created(String),
    CannotCreate(String),
    Renamed { from: String, to: String },
    CannotRename { name: String, error: String },
    Trashed(usize),
    CannotTrash(String),
    Deleted(usize),
    Yanked { cut: bool, count: usize },
    BookmarkRemoved(String),
    BookmarkAdded(String),
    MovedInto { src: String, dst: String },
    CannotMove { src: String, error: String },
}

/// The text of a status message.
pub open spec fn notice_text_spec(n: Notice) -> Seq<char> {
    match n {
        Notice::NotADirectory(p) => "Not a directory: "@ + p@,
        Notice::NewTab => "New tab"@,
        Notice::TabClosed => "Tab closed"@,
        Notice::Thumbnails(on) => "Thumbnails "@ + if on {
            "on"@
        } else {
            "off"@
        },
        Notice::CannotOpen { name, error } => "Cannot open "@ + name@ + ": "@ + error@,
        Notice::Created(name) => "Created "@ + name@,
        Notice::CannotCreate(e) => "Cannot create folder: "@ + e@,
        Notice::Renamed { from, to } => "Renamed "@ + from@ + " \u{2192} "@ + to@,
        Notice::CannotRename { name, error } => "Cannot rename "@ + name@ + ": "@ + error@,
        Notice::Trashed(n) => if n == 1 {
            "Moved 1 item to Trash"@
        } else {
            "Moved "@ + dec(n as nat) + " items to Trash"@
        },
        Notice::CannotTrash(e) => "Cannot trash items: "@ + e@,
        Notice::Deleted(n) => "Permanently deleted "@ + dec(n as nat) + " item(s)"@,
        Notice::Yanked { cut, count } => (if cut {
            "Cut "@
        } else {
            "Copied "@
        }) + dec(count as nat) + " item(s) \u{2014} paste with Ctrl+V"@,
        Notice::BookmarkRemoved(p) => "Removed bookmark "@ + p@,
        Notice::BookmarkAdded(p) => "Added bookmark "@ + p@,
        Notice::MovedInto { src, dst } => "Moved "@ + file_name_or_empty(src@) + " into "@
            + file_name_or_empty(dst@),
        Notice::CannotMove { src, error } => "Cannot move "@ + file_name_or_empty(src@) + ": "@
            + error@,
    }
}

fn push_count(m: &mut Vec<char>, n: usize)
    ensures
        final(m)@ == old(m)@ + dec(n as nat),
{
    let d = decimal(n as u64);
    push_all(m, d.as_slice());
}

/// The text of a status message (see [`notice_text_spec`]).
pub fn notice_text(n: &Notice) -> (r: String)
    ensures
        r@ == notice_text_spec(*n),
{
    let mut m: Vec<char> = Vec::new();
    match n {
        Notice::NotADirectory(p) => {
            push_str(&mut m, "Not a directory: ");
            push_str(&mut m, p.as_str());
        },
        Notice::NewTab => push_str(&mut m, "New tab"),
        Notice::TabClosed => push_str(&mut m, "Tab closed"),
        Notice::Thumbnails(on) => {
            push_str(&mut m, "Thumbnails ");
            push_str(
                &mut m,
                if *on {
                    "on"
                } else {
                    "off"
                },
            );
        },
        Notice::CannotOpen { name, error } => {
            push_str(&mut m, "Cannot open ");
            push_str(&mut m, name.as_str());
            push_str(&mut m, ": ");
            push_str(&mut m, error.as_str());
        },
        Notice::Created(name) => {
            push_str(&mut m, "Created ");
            push_str(&mut m, name.as_str());
        },
        Notice::CannotCreate(e) => {
            push_str(&mut m, "Cannot create folder: ");
            push_str(&mut m, e.as_str());
        },
        Notice::Renamed { from, to } => {
            push_str(&mut m, "Renamed ");
            push_str(&mut m, from.as_str());
            push_str(&mut m, " \u{2192} ");
            push_str(&mut m, to.as_str());
        },
        Notice::CannotRename { name, error } => {
            push_str(&mut m, "Cannot rename ");
            push_str(&mut m, name.as_str());
            push_str(&mut m, ": ");
            push_str(&mut m, error.as_str());
        },
        Notice::Trashed(count) => {
            if *count == 1 {
                push_str(&mut m, "Moved 1 item to Trash");
            } else {
                push_str(&mut m, "Moved ");
                push_count(&mut m, *count);
                push_str(&mut m, " items to Trash");
            }
        },
        Notice::CannotTrash(e) => {
            push_str(&mut m, "Cannot trash items: ");
            push_str(&mut m, e.as_str());
        },
        Notice::Deleted(count) => {
            push_str(&mut m, "Permanently deleted ");
            push_count(&mut m, *count);
            push_str(&mut m, " item(s)");
        },
        Notice::Yanked { cut, count } => {
            push_str(
                &mut m,
                if *cut {
                    "Cut "
                } else {
                    "Copied "
                },
            );
            push_count(&mut m, *count);
            push_str(&mut m, " item(s) \u{2014} paste with Ctrl+V");
        },
        Notice::BookmarkRemoved(p) => {
            push_str(&mut m, "Removed bookmark ");
            push_str(&mut m, p.as_str());
        },
        Notice::BookmarkAdded(p) => {
            push_str(&mut m, "Added bookmark ");
            push_str(&mut m, p.as_str());
        },
        Notice::MovedInto { src, dst } => {
            push_str(&mut m, "Moved ");
            push_str(&mut m, file_name_text(src.as_str()).as_str());
            push_str(&mut m, " into ");
            push_str(&mut m, file_name_text(dst.as_str()).as_str());
        },
        Notice::CannotMove { src, error } => {
            push_str(&mut m, "Cannot move ");
            push_str(&mut m, file_name_text(src.as_str()).as_str());
            push_str(&mut m, ": ");
            push_str(&mut m, error.as_str());
        },
    }
    string_of(m.as_slice())
}

} // verus!
