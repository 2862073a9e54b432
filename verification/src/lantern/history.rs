//! Back/forward navigation history.
use vstd::prelude::*;

use crate::text::{chars_of, eq_chars};

verus! {

/// Abstract history: the visited paths and the cursor.
pub struct HistoryView {
    pub stack: Seq<Seq<char>>,
    pub pos: int,
}

impl HistoryView {
    pub open spec fn wf(self) -> bool {
        &&& 0 <= self.pos
        &&& self.stack.len() > 0 ==> self.pos < self.stack.len()
    }

    pub open spec fn current(self) -> Option<Seq<char>> {
        if self.stack.len() == 0 {
            None
        } else {
            Some(self.stack[self.pos])
        }
    }

    pub open spec fn can_go_back(self) -> bool {
        self.stack.len() > 0 && self.pos > 0
    }

    pub open spec fn can_go_forward(self) -> bool {
        self.stack.len() > 0 && self.pos + 1 < self.stack.len()
    }

    /// Visiting `p`: forward entries are dropped; re-visiting the current
    /// path does not duplicate it.
    pub open spec fn push(self, p: Seq<char>) -> HistoryView {
        let keep = if self.stack.len() == 0 {
            0
        } else {
            self.pos + 1
        };
        let kept = self.stack.take(keep);
        if kept.len() > 0 && kept.last() == p {
            HistoryView { stack: kept, pos: self.pos }
        } else {
            HistoryView { stack: kept.push(p), pos: kept.len() as int }
        }
    }

    pub open spec fn back(self) -> HistoryView {
        if self.can_go_back() {
            HistoryView { stack: self.stack, pos: self.pos - 1 }
        } else {
            self
        }
    }

    pub open spec fn forward(self) -> HistoryView {
        if self.can_go_forward() {
            HistoryView { stack: self.stack, pos: self.pos + 1 }
        } else {
            self
        }
    }
}

/// A linear stack of visited paths with a cursor. `push` truncates any
/// forward entries, mirroring browser semantics.
#[derive(Debug)]
pub struct History {
    stack: Vec<String>,
    pos: usize,
}

impl View for History {
    type V = HistoryView;

    closed spec fn view(&self) -> HistoryView {
        HistoryView { stack: self.stack@.map_values(|s: String| s@), pos: self.pos as int }
    }
}

impl Clone for History {
    fn clone(&self) -> (h: History)
        ensures
            h@ == self@,
    {
        proof {
            use_type_invariant(self);
        }
        let stack = self.stack.clone();
        proof {
            assert(stack@.map_values(|s: String| s@) =~= self.stack@.map_values(|s: String| s@))
                by {
                assert forall|i: int| 0 <= i < stack@.len() implies stack@[i]@ == self.stack@[i]@ by {
                    assert(cloned::<String>(self.stack@[i], stack@[i]));
                }
            }
        }
        History { stack, pos: self.pos }
    }
}

impl Default for History {
    fn default() -> (h: History)
        ensures
            h@.stack.len() == 0,
            h@.pos == 0,
    {
        History::new()
    }
}

impl History {
    #[verifier::type_invariant]
    closed spec fn inv(self) -> bool {
        self.stack.len() > 0 ==> self.pos < self.stack.len()
    }

    pub fn new() -> (h: History)
        ensures
            h@.stack.len() == 0,
            h@.pos == 0,
    {
        History { stack: Vec::new(), pos: 0 }
    }

    /// Visit `path`, dropping any forward history.
    pub fn push(&mut self, path: &str)
        ensures
            final(self)@ == old(self)@.push(path@),
    {
        proof {
            use_type_invariant(&*self);
        }
        let ghost v0 = self@;
        let keep: usize = if self.stack.len() == 0 {
            0
        } else {
            self.pos + 1
        };
        let mut stack: Vec<String> = Vec::new();
        std::mem::swap(&mut stack, &mut self.stack);
        stack.truncate(keep);
        let n = stack.len();
        assert(stack@.map_values(|s: String| s@) =~= v0.stack.take(keep as int));
        if n > 0 {
            let last = chars_of(stack[n - 1].as_str());
            let p = chars_of(path);
            if eq_chars(last.as_slice(), p.as_slice()) {
                self.stack = stack;
                return;
            }
        }
        stack.push(path.to_string());
        assert(stack@.map_values(|s: String| s@) =~= v0.stack.take(keep as int).push(path@));
        self.pos = n;
        self.stack = stack;
    }

    pub fn current(&self) -> (r: Option<&str>)
        ensures
            match r {
                Some(s) => self@.current() == Some(s@),
                None => self@.current() is None,
            },
    {
        proof {
            use_type_invariant(self);
        }
        if self.stack.len() == 0 {
            None
        } else {
            Some(self.stack[self.pos].as_str())
        }
    }

    pub fn can_go_back(&self) -> (r: bool)
        ensures
            r == self@.can_go_back(),
    {
        self.stack.len() != 0 && self.pos > 0
    }

    pub fn can_go_forward(&self) -> (r: bool)
        ensures
            r == self@.can_go_forward(),
    {
        proof {
            use_type_invariant(self);
        }
        self.stack.len() != 0 && self.pos + 1 < self.stack.len()
    }

    /// Step back and return the new current path, if any.
    pub fn go_back(&mut self) -> (r: Option<&str>)
        ensures
            final(self)@ == old(self)@.back(),
            match r {
                Some(s) => old(self)@.can_go_back() && final(self)@.current() == Some(s@),
                None => !old(self)@.can_go_back(),
            },
    {
        proof {
            use_type_invariant(&*self);
        }
        if self.can_go_back() {
            self.pos = self.pos - 1;
            Some(self.stack[self.pos].as_str())
        } else {
            None
        }
    }

    /// Step forward and return the new current path, if any.
    pub fn go_forward(&mut self) -> (r: Option<&str>)
        ensures
            final(self)@ == old(self)@.forward(),
            match r {
                Some(s) => old(self)@.can_go_forward() && final(self)@.current() == Some(s@),
                None => !old(self)@.can_go_forward(),
            },
    {
        proof {
            use_type_invariant(&*self);
        }
        if self.can_go_forward() {
            self.pos = self.pos + 1;
            Some(self.stack[self.pos].as_str())
        } else {
            None
        }
    }
}

/// Stepping back and then forward returns to the same place.
pub proof fn law_back_then_forward(h: HistoryView)
    requires
        h.wf(),
        h.can_go_back(),
    ensures
        h.back().forward() == h,
{
}

/// Stepping forward and then back returns to the same place.
pub proof fn law_forward_then_back(h: HistoryView)
    requires
        h.wf(),
        h.can_go_forward(),
    ensures
        h.forward().back() == h,
{
}

/// After visiting a path it is current and nothing lies ahead.
pub proof fn law_push_makes_current(h: HistoryView, p: Seq<char>)
    requires
        h.wf(),
    ensures
        h.push(p).wf(),
        h.push(p).current() == Some(p),
        !h.push(p).can_go_forward(),
{
}

/// Visiting the same path twice in a row records it once.
pub proof fn law_push_idempotent(h: HistoryView, p: Seq<char>)
    requires
        h.wf(),
    ensures
        h.push(p).push(p) == h.push(p),
{
    let h1 = h.push(p);
    assert(h1.stack.take(h1.pos + 1) =~= h1.stack);
}

/// Visiting a new path and then stepping back returns to the path that was
/// current before.
pub proof fn law_push_then_back(h: HistoryView, p: Seq<char>)
    requires
        h.wf(),
        h.current() is Some,
        h.current() != Some(p),
    ensures
        h.push(p).can_go_back(),
        h.push(p).back().current() == h.current(),
{
}

} // verus!
