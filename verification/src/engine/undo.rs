//! Undo/redo stack for file manager actions.
//!
//! Undoing or redoing an action touches the file system, which the caller
//! does. The stack hands out the action to reverse ([`UndoStack::take_undo`],
//! [`UndoStack::take_redo`]), the caller performs the work and reports what
//! happened in an [`FsReport`], and [`UndoStack::finish_undo`] /
//! [`UndoStack::finish_redo`] decide what is recorded and what the user is
//! told.
use vstd::prelude::*;

use crate::engine::format::{dec, decimal};
use crate::engine::path::{file_name_or_empty, file_name_text};
use crate::text::{chars_of, push_all, push_str, string_of};
use crate::xdg::trash::TrashItem;

verus! {

/// Reversible file operation.
#[derive(Clone, Debug)]
pub enum UndoAction {
    /// File(s) moved to the trash, restorable via their trash records.
    Trash(Vec<TrashItem>),
    /// Renamed file: original path and new path.
    Rename { original: String, new_path: String },
    /// Created folder.
    CreateFolder(String),
    /// Moved file(s): original locations and new destinations.
    Move { sources: Vec<String>, destinations: Vec<String> },
    /// Copied file(s): the newly created copies.
    Copy { destinations: Vec<String> },
}

/// What the caller's file-system work for one undo or redo step achieved.
///
/// * `done`: items restored from the trash (undo of a trash action) or
///   copies removed (undo of a copy);
/// * `error`: the failure of the single operation of a rename, of
///   re-creating a folder, or of moving items to the trash again;
/// * `new_paths`: where the moved items of a move ended up;
/// * `new_items`: the trash records of items trashed again.
pub struct FsReport {
    pub done: u64,
    pub error: Option<String>,
    pub new_paths: Vec<String>,
    pub new_items: Vec<TrashItem>,
}

/// Transactional undo/redo stack.
pub struct UndoStack {
    undo_items: Vec<UndoAction>,
    redo_items: Vec<UndoAction>,
}

/// The two stacks, top last.
pub struct UndoView {
    pub undo: Seq<UndoAction>,
    pub redo: Seq<UndoAction>,
}

impl View for UndoStack {
    type V = UndoView;

    closed spec fn view(&self) -> UndoView {
        UndoView { undo: self.undo_items@, redo: self.redo_items@ }
    }
}

pub open spec fn quoted(s: Seq<char>) -> Seq<char> {
    "'"@ + s + "'"@
}

/// What undoing `a` records on the redo stack, and the message.
pub open spec fn undo_outcome(a: UndoAction, rep: FsReport) -> (Option<UndoAction>, Result<Seq<char>, Seq<char>>) {
    match a {
        UndoAction::Trash(items) => (
            Some(a),
            Ok("Restored "@ + dec(rep.done as nat) + " of "@ + dec(items@.len()) + " item(s) from Trash"@),
        ),
        UndoAction::Rename { original, new_path } => match rep.error {
            Some(e) => (None, Err("Cannot undo rename: "@ + e@)),
            None => (
                Some(a),
                Ok("Renamed "@ + quoted(file_name_or_empty(new_path@)) + " back to "@ + quoted(
                    file_name_or_empty(original@),
                )),
            ),
        },
        UndoAction::CreateFolder(p) => (Some(a), Ok("Removed created folder "@ + quoted(file_name_or_empty(p@)))),
        UndoAction::Move { sources, destinations } => (
            Some(UndoAction::Move { sources: rep.new_paths, destinations }),
            Ok("Undid move of "@ + dec(rep.new_paths@.len()) + " item(s)"@),
        ),
        UndoAction::Copy { destinations } => (Some(a), Ok("Removed "@ + dec(rep.done as nat) + " copied item(s)"@)),
    }
}

/// What redoing `a` records on the undo stack, and the message.
pub open spec fn redo_outcome(a: UndoAction, rep: FsReport) -> (Option<UndoAction>, Result<Seq<char>, Seq<char>>) {
    match a {
        UndoAction::Trash(items) => match rep.error {
            Some(e) => (None, Err("Cannot redo move to trash"@)),
            None => (
                Some(UndoAction::Trash(rep.new_items)),
                Ok("Moved "@ + dec(rep.new_items@.len()) + " item(s) to Trash"@),
            ),
        },
        UndoAction::Rename { original, new_path } => match rep.error {
            Some(e) => (None, Err("Cannot redo rename: "@ + e@)),
            None => (
                Some(a),
                Ok("Renamed "@ + quoted(file_name_or_empty(original@)) + " to "@ + quoted(
                    file_name_or_empty(new_path@),
                )),
            ),
        },
        UndoAction::CreateFolder(p) => match rep.error {
            Some(e) => (None, Err("Cannot recreate folder: "@ + e@)),
            None => (Some(a), Ok("Recreated folder "@ + quoted(file_name_or_empty(p@)))),
        },
        UndoAction::Move { sources, destinations } => (
            Some(UndoAction::Move { sources: destinations, destinations: rep.new_paths }),
            Ok("Redid move of "@ + dec(rep.new_paths@.len()) + " item(s)"@),
        ),
        UndoAction::Copy { destinations } => (None, Ok("Redo copy not applicable; re-paste from clipboard"@)),
    }
}

pub open spec fn push_opt(s: Seq<UndoAction>, a: Option<UndoAction>) -> Seq<UndoAction> {
    match a {
        Some(x) => s.push(x),
        None => s,
    }
}

pub open spec fn same_text(r: Result<String, String>, m: Result<Seq<char>, Seq<char>>) -> bool {
    match r {
        Ok(s) => m == Ok::<Seq<char>, Seq<char>>(s@),
        Err(e) => m == Err::<Seq<char>, Seq<char>>(e@),
    }
}

/// Taking the top of a stack: the action, or the message for an empty stack.
pub open spec fn take_spec(s: Seq<UndoAction>) -> Option<UndoAction> {
    if s.len() == 0 {
        None
    } else {
        Some(s.last())
    }
}

fn text_of(parts: &mut Vec<char>, s: &str)
    ensures
        final(parts)@ == old(parts)@ + s@,
{
    push_str(parts, s);
}

fn push_quoted_name(parts: &mut Vec<char>, path: &str)
    ensures
        final(parts)@ == old(parts)@ + quoted(file_name_or_empty(path@)),
{
    let n = file_name_text(path);
    push_str(parts, "'");
    push_str(parts, n.as_str());
    push_str(parts, "'");
}

fn push_count(parts: &mut Vec<char>, n: u64)
    ensures
        final(parts)@ == old(parts)@ + dec(n as nat),
{
    let d = decimal(n);
    push_all(parts, d.as_slice());
}

impl UndoStack {
    pub fn new() -> (s: Self)
        ensures
            s@.undo.len() == 0,
            s@.redo.len() == 0,
    {
        UndoStack { undo_items: Vec::new(), redo_items: Vec::new() }
    }

    /// Record a new action; the redo history is discarded.
    pub fn push(&mut self, action: UndoAction)
        ensures
            final(self)@.undo == old(self)@.undo.push(action),
            final(self)@.redo.len() == 0,
    {
        self.undo_items.push(action);
        self.redo_items.clear();
    }

    pub fn can_undo(&self) -> (r: bool)
        ensures
            r == (self@.undo.len() > 0),
    {
        self.undo_items.len() > 0
    }

    pub fn can_redo(&self) -> (r: bool)
        ensures
            r == (self@.redo.len() > 0),
    {
        self.redo_items.len() > 0
    }

    /// Take the most recent action to undo; `Err("Nothing to undo")` when
    /// there is none.
    pub fn take_undo(&mut self) -> (r: Result<UndoAction, String>)
        ensures
            final(self)@.redo == old(self)@.redo,
            match take_spec(old(self)@.undo) {
                Some(a) => r == Ok::<UndoAction, String>(a) && final(self)@.undo == old(self)@.undo.drop_last(),
                None => r is Err && r->Err_0@ == "Nothing to undo"@ && final(self)@.undo == old(self)@.undo,
            },
    {
        match self.undo_items.pop() {
            Some(a) => Ok(a),
            None => Err(String::from_str("Nothing to undo")),
        }
    }

    /// Take the most recently undone action; `Err("Nothing to redo")` when
    /// there is none.
    pub fn take_redo(&mut self) -> (r: Result<UndoAction, String>)
        ensures
            final(self)@.undo == old(self)@.undo,
            match take_spec(old(self)@.redo) {
                Some(a) => r == Ok::<UndoAction, String>(a) && final(self)@.redo == old(self)@.redo.drop_last(),
                None => r is Err && r->Err_0@ == "Nothing to redo"@ && final(self)@.redo == old(self)@.redo,
            },
    {
        match self.redo_items.pop() {
            Some(a) => Ok(a),
            None => Err(String::from_str("Nothing to redo")),
        }
    }

    /// Complete the undo of `action` once the file-system work reported in
    /// `report` is done: record what can be redone and say what happened.
    pub fn finish_undo(&mut self, action: UndoAction, report: FsReport) -> (r: Result<String, String>)
        ensures
            final(self)@.undo == old(self)@.undo,
            final(self)@.redo == push_opt(old(self)@.redo, undo_outcome(action, report).0),
            same_text(r, undo_outcome(action, report).1),
    {
        let ghost a0 = action;
        let ghost rep0 = report;
        let mut m: Vec<char> = Vec::new();
        match action {
            UndoAction::Trash(items) => {
                let count = items.len() as u64;
                text_of(&mut m, "Restored ");
                push_count(&mut m, report.done);
                text_of(&mut m, " of ");
                push_count(&mut m, count);
                text_of(&mut m, " item(s) from Trash");
                self.redo_items.push(UndoAction::Trash(items));
                Ok(string_of(m.as_slice()))
            },
            UndoAction::Rename { original, new_path } => {
                match report.error {
                    Some(e) => {
                        text_of(&mut m, "Cannot undo rename: ");
                        push_str(&mut m, e.as_str());
                        Err(string_of(m.as_slice()))
                    },
                    None => {
                        text_of(&mut m, "Renamed ");
                        push_quoted_name(&mut m, new_path.as_str());
                        text_of(&mut m, " back to ");
                        push_quoted_name(&mut m, original.as_str());
                        self.redo_items.push(UndoAction::Rename { original, new_path });
                        Ok(string_of(m.as_slice()))
                    },
                }
            },
            UndoAction::CreateFolder(path) => {
                text_of(&mut m, "Removed created folder ");
                push_quoted_name(&mut m, path.as_str());
                self.redo_items.push(UndoAction::CreateFolder(path));
                Ok(string_of(m.as_slice()))
            },
            UndoAction::Move { sources, destinations } => {
                let moved = report.new_paths.len() as u64;
                text_of(&mut m, "Undid move of ");
                push_count(&mut m, moved);
                text_of(&mut m, " item(s)");
                self.redo_items.push(UndoAction::Move { sources: report.new_paths, destinations });
                Ok(string_of(m.as_slice()))
            },
            UndoAction::Copy { destinations } => {
                text_of(&mut m, "Removed ");
                push_count(&mut m, report.done);
                text_of(&mut m, " copied item(s)");
                self.redo_items.push(UndoAction::Copy { destinations });
                Ok(string_of(m.as_slice()))
            },
        }
    }

    /// Complete the redo of `action` once the file-system work reported in
    /// `report` is done: record what can be undone again and say what
    /// happened.
    pub fn finish_redo(&mut self, action: UndoAction, report: FsReport) -> (r: Result<String, String>)
        ensures
            final(self)@.redo == old(self)@.redo,
            final(self)@.undo == push_opt(old(self)@.undo, redo_outcome(action, report).0),
            same_text(r, redo_outcome(action, report).1),
    {
        let mut m: Vec<char> = Vec::new();
        match action {
            UndoAction::Trash(items) => {
                match report.error {
                    Some(_) => Err(String::from_str("Cannot redo move to trash")),
                    None => {
                        let count = report.new_items.len() as u64;
                        text_of(&mut m, "Moved ");
                        push_count(&mut m, count);
                        text_of(&mut m, " item(s) to Trash");
                        self.undo_items.push(UndoAction::Trash(report.new_items));
                        Ok(string_of(m.as_slice()))
                    },
                }
            },
            UndoAction::Rename { original, new_path } => {
                match report.error {
                    Some(e) => {
                        text_of(&mut m, "Cannot redo rename: ");
                        push_str(&mut m, e.as_str());
                        Err(string_of(m.as_slice()))
                    },
                    None => {
                        text_of(&mut m, "Renamed ");
                        push_quoted_name(&mut m, original.as_str());
                        text_of(&mut m, " to ");
                        push_quoted_name(&mut m, new_path.as_str());
                        self.undo_items.push(UndoAction::Rename { original, new_path });
                        Ok(string_of(m.as_slice()))
                    },
                }
            },
            UndoAction::CreateFolder(path) => {
                match report.error {
                    Some(e) => {
                        text_of(&mut m, "Cannot recreate folder: ");
                        push_str(&mut m, e.as_str());
                        Err(string_of(m.as_slice()))
                    },
                    None => {
                        text_of(&mut m, "Recreated folder ");
                        push_quoted_name(&mut m, path.as_str());
                        self.undo_items.push(UndoAction::CreateFolder(path));
                        Ok(string_of(m.as_slice()))
                    },
                }
            },
            UndoAction::Move { sources, destinations } => {
                let moved = report.new_paths.len() as u64;
                text_of(&mut m, "Redid move of ");
                push_count(&mut m, moved);
                text_of(&mut m, " item(s)");
                self.undo_items.push(UndoAction::Move { sources: destinations, destinations: report.new_paths });
                Ok(string_of(m.as_slice()))
            },
            UndoAction::Copy { destinations } => {
                Ok(String::from_str("Redo copy not applicable; re-paste from clipboard"))
            },
        }
    }
}

/// One undo as [`UndoStack::take_undo`] and [`UndoStack::finish_undo`]
/// perform it, with `rep` the caller's report.
pub open spec fn undo_step(v: UndoView, rep: FsReport) -> UndoView {
    if v.undo.len() == 0 {
        v
    } else {
        UndoView { undo: v.undo.drop_last(), redo: push_opt(v.redo, undo_outcome(v.undo.last(), rep).0) }
    }
}

/// One redo as [`UndoStack::take_redo`] and [`UndoStack::finish_redo`]
/// perform it, with `rep` the caller's report.
pub open spec fn redo_step(v: UndoView, rep: FsReport) -> UndoView {
    if v.redo.len() == 0 {
        v
    } else {
        UndoView { undo: push_opt(v.undo, redo_outcome(v.redo.last(), rep).0), redo: v.redo.drop_last() }
    }
}

/// Undoing a rename or a folder creation and redoing it, with both steps
/// succeeding, gives back the stacks as they were.
pub proof fn law_undo_then_redo(v: UndoView, rep: FsReport)
    requires
        v.undo.len() > 0,
        v.undo.last() is Rename || v.undo.last() is CreateFolder,
        rep.error is None,
    ensures
        redo_step(undo_step(v, rep), rep) == v,
{
    let a = v.undo.last();
    assert(undo_outcome(a, rep).0 == Some(a));
    assert(redo_outcome(a, rep).0 == Some(a));
    assert(v.undo.drop_last().push(a) =~= v.undo);
    assert(v.redo.push(a).drop_last() =~= v.redo);
}

/// Undoing right after recording an action hands back that action, and
/// every action but a failed rename can then be redone.
pub proof fn law_push_then_undo(v: UndoView, a: UndoAction, rep: FsReport)
    ensures
        take_spec(v.undo.push(a)) == Some(a),
        undo_step(UndoView { undo: v.undo.push(a), redo: Seq::empty() }, rep).undo == v.undo,
        !(a is Rename && rep.error is Some) ==> undo_step(
            UndoView { undo: v.undo.push(a), redo: Seq::empty() },
            rep,
        ).redo.len() == 1,
{
    assert(v.undo.push(a).drop_last() =~= v.undo);
}

} // verus!
