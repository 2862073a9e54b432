//! Plain state records of the file manager: the clipboard, browser tabs and
//! Miller columns.
use vstd::prelude::*;

use crate::engine::entry::Entry;
use crate::lantern::history::History;
use crate::engine::bookmarks::{kind_spec, Bookmark, BookmarkKind};
use crate::engine::entry::{child_path, SortKey};
use crate::text::{rfind, rfind_char, slice_to_vec, str_eq, string_of};
use crate::engine::path::{file_name_chars, file_name_spec};
use crate::engine::path::{
    join, join_spec, normalize, normalize_spec, parent, parent_spec, resolve, resolve_spec,
};
use crate::engine::session::Notice;
use crate::lantern::chooser::{rule_allows, FileFilter};
use crate::text::{chars_of, contains_chars, contains_sub, lower, lowercase, trim, trimmed};
use crate::xdg::clipboard::{
    gnome_payload, gnome_payload_spec, keep_existing, parse_payload, payload_spec, strings,
    uri_lines, uri_list,
};

verus! {

/// Clipboard supporting the desktop file transfer formats
/// (`x-special/gnome-copied-files` and `text/uri-list`).
#[derive(Clone, Debug, PartialEq, Eq)]
pub struct Clipboard {
    pub paths: Vec<String>,
    /// `true` = move on paste (cut), `false` = copy.
    pub cut: bool,
}

impl Clipboard {
    pub fn new(paths: Vec<String>, cut: bool) -> (c: Self)
        ensures
            c.paths == paths,
            c.cut == cut,
    {
        Self { paths, cut }
    }

    /// Format as `x-special/gnome-copied-files`.
    pub fn to_gnome_copied_files(&self) -> (r: String)
        ensures
            r@ == gnome_payload_spec(strings(self.paths@), self.cut),
    {
        gnome_payload(&self.paths, self.cut)
    }

    /// Format as RFC 2483 `text/uri-list`.
    pub fn to_uri_list(&self) -> (r: String)
        ensures
            r@ == uri_lines(strings(self.paths@), seq!['\r', '\n']),
    {
        uri_list(&self.paths)
    }

    /// Parse a clipboard payload (gnome-copied-files, uri-list or raw paths),
    /// keeping the paths listed in `existing`; `None` when none remain.
    pub fn from_text_payload(text: &str, existing: &[String]) -> (r: Option<Clipboard>)
        ensures
            match r {
                Some(c) => trim(text@).len() > 0 && payload_spec(text@).0 == c.cut && strings(
                    c.paths@,
                ) == keep_existing(payload_spec(text@).1, strings(existing@)) && c.paths@.len()
                    > 0,
                None => trim(text@).len() == 0 || keep_existing(
                    payload_spec(text@).1,
                    strings(existing@),
                ).len() == 0,
            },
    {
        match parse_payload(text, existing) {
            Some((paths, cut)) => Some(Clipboard { paths, cut }),
            None => None,
        }
    }
}

/// One independent browsing session. Navigation, selection and filtering are
/// tab-local; preferences, bookmarks and the clipboard are application-wide.
#[derive(Debug)]
pub struct TabState {
    pub id: u64,
    pub cwd: String,
    pub entries: Vec<Entry>,
    pub read_error: Option<String>,
    pub history: History,
    /// Index into this tab's visible (filtered) entries (primary cursor).
    pub selected: Option<usize>,
    /// Selected visible indices, ascending, for multi-selection.
    pub selected_indices: Vec<usize>,
    /// Anchor index for range selection.
    pub anchor: Option<usize>,
    pub filter: String,
    pub miller_columns: Vec<MillerColumn>,
}

/// A directory presented in Miller view. The final column is always the
/// active directory; preceding columns are its nearest ancestors.
#[derive(Clone, Debug)]
pub struct MillerColumn {
    pub path: String,
    pub entries: Vec<Entry>,
    /// Entry leading to the next column, or the active tab selection in the
    /// final column. This addresses `entries` directly (no filter).
    pub selected: Option<usize>,
}

impl TabState {
    /// A tab that has not been navigated yet.
    pub fn empty(id: u64) -> (t: TabState)
        ensures
            t.id == id,
            t.cwd@.len() == 0,
            t.entries@.len() == 0,
            t.read_error is None,
            t.history@.stack.len() == 0,
            t.selected is None,
            t.selected_indices@.len() == 0,
            t.anchor is None,
            t.filter@.len() == 0,
            t.miller_columns@.len() == 0,
    {
        TabState {
            id,
            cwd: String::new(),
            entries: Vec::new(),
            read_error: None,
            history: History::new(),
            selected: None,
            selected_indices: Vec::new(),
            anchor: None,
            filter: String::new(),
            miller_columns: Vec::new(),
        }
    }
}

/// Strictly increasing: the selected indices as a set, in order.
pub open spec fn ascending(s: Seq<usize>) -> bool {
    forall|i: int, j: int| 0 <= i < j < s.len() ==> s[i] < s[j]
}

/// The indices `start..=end`.
pub open spec fn index_range(start: int, end: int) -> Seq<usize> {
    Seq::new((end - start + 1) as nat, |i: int| (start + i) as usize)
}

/// The cursor after a move by `delta` among `count` visible rows: the first
/// (or last, moving up) row without a cursor, else the cursor moved and
/// clamped to the list.
pub open spec fn moved_cursor(selected: Option<usize>, delta: i64, count: usize) -> usize {
    match selected {
        None => if delta >= 0 {
            0
        } else {
            (count - 1) as usize
        },
        Some(cur) => if cur + delta < 0 {
            0
        } else if cur + delta > count - 1 {
            (count - 1) as usize
        } else {
            (cur + delta) as usize
        },
    }
}

impl TabState {
    /// Selects the single visible row `index` (also the range anchor); an
    /// index outside the `count` visible rows clears the selection.
    pub fn select_visible(&mut self, index: usize, count: usize)
        ensures
            index < count ==> final(self).selected == Some(index) && final(self).selected_indices@
                == seq![index] && final(self).anchor == Some(index),
            index >= count ==> final(self).selected is None && final(self).selected_indices@.len()
                == 0 && final(self).anchor is None,
            final(self).cwd == old(self).cwd,
            final(self).entries == old(self).entries,
            final(self).filter == old(self).filter,
            final(self).id == old(self).id,
    {
        if index < count {
            self.selected = Some(index);
            self.selected_indices = Vec::new();
            self.selected_indices.push(index);
            self.anchor = Some(index);
        } else {
            self.selected = None;
            self.selected_indices = Vec::new();
            self.anchor = None;
        }
    }

    /// Drops the whole selection.
    pub fn clear_selection(&mut self)
        ensures
            final(self).selected is None,
            final(self).selected_indices@.len() == 0,
            final(self).anchor is None,
            final(self).cwd == old(self).cwd,
            final(self).entries == old(self).entries,
            final(self).filter == old(self).filter,
            final(self).id == old(self).id,
    {
        self.selected = None;
        self.selected_indices = Vec::new();
        self.anchor = None;
    }

    /// Replaces the filter text; the selection is dropped, since its indices
    /// address the visible rows that the filter reshapes.
    pub fn set_filter(&mut self, filter: String)
        ensures
            final(self).filter == filter,
            final(self).selected is None,
            final(self).selected_indices@.len() == 0,
            final(self).anchor is None,
            final(self).cwd == old(self).cwd,
            final(self).entries == old(self).entries,
            final(self).id == old(self).id,
    {
        self.filter = filter;
        self.clear_selection();
    }

    /// Adds or removes the visible row `index` (of `count`) from the
    /// selection. An added row becomes the cursor and anchor; removing the
    /// cursor's row moves the cursor to the first selected row, if any.
    pub fn toggle_select_visible(&mut self, index: usize, count: usize)
        requires
            ascending(old(self).selected_indices@),
        ensures
            ascending(final(self).selected_indices@),
            index >= count ==> final(self).selected == old(self).selected
                && final(self).selected_indices == old(self).selected_indices && final(self).anchor
                == old(self).anchor,
            index < count && old(self).selected_indices@.contains(index) ==> {
                &&& final(self).selected_indices@.to_set() == old(self).selected_indices@.to_set().remove(index)
                &&& final(self).selected == (if old(self).selected == Some(index) {
                    if final(self).selected_indices@.len() == 0 {
                        None
                    } else {
                        Some(final(self).selected_indices@[0])
                    }
                } else {
                    old(self).selected
                })
                &&& final(self).anchor == old(self).anchor
            },
            index < count && !old(self).selected_indices@.contains(index) ==> {
                &&& final(self).selected_indices@.to_set() == old(self).selected_indices@.to_set().insert(index)
                &&& final(self).selected == Some(index)
                &&& final(self).anchor == Some(index)
            },
            final(self).cwd == old(self).cwd,
            final(self).entries == old(self).entries,
            final(self).filter == old(self).filter,
            final(self).id == old(self).id,
    {
        if index >= count {
            return;
        }
        let ghost s0 = self.selected_indices@;
        let n = self.selected_indices.len();
        let mut k: usize = 0;
        while k < n && self.selected_indices[k] < index
            invariant
                n == self.selected_indices@.len(),
                self.selected_indices@ == s0,
                k <= n,
                forall|j: int| 0 <= j < k ==> s0[j] < index,
            decreases n - k,
        {
            k = k + 1;
        }
        if k < n && self.selected_indices[k] == index {
            self.selected_indices.remove(k);
            let ghost s1 = self.selected_indices@;
            assert(s1 =~= s0.remove(k as int));
            assert(ascending(s1)) by {
                assert forall|a: int, b: int| 0 <= a < b < s1.len() implies s1[a] < s1[b] by {
                    let a2 = if a < k { a } else { a + 1 };
                    let b2 = if b < k { b } else { b + 1 };
                    assert(s1[a] == s0[a2] && s1[b] == s0[b2]);
                }
            }
            assert(s1.to_set() =~= s0.to_set().remove(index)) by {
                assert forall|x: usize| s1.to_set().contains(x) <==> s0.to_set().remove(index).contains(x) by {
                    if s1.contains(x) {
                        let j = choose|j: int| 0 <= j < s1.len() && s1[j] == x;
                        let j2 = if j < k { j } else { j + 1 };
                        assert(s0[j2] == x);
                        assert(x != index);
                    }
                    if s0.contains(x) && x != index {
                        let j = choose|j: int| 0 <= j < s0.len() && s0[j] == x;
                        if j < k {
                            assert(s1[j] == x);
                        } else {
                            assert(j != k);
                            assert(s1[j - 1] == x);
                        }
                    }
                }
            }
            if self.selected == Some(index) {
                self.selected = if self.selected_indices.len() == 0 {
                    None
                } else {
                    Some(self.selected_indices[0])
                };
            }
        } else {
            assert(!s0.contains(index)) by {
                if s0.contains(index) {
                    let j = choose|j: int| 0 <= j < s0.len() && s0[j] == index;
                    if j < k {
                    } else if j == k {
                    } else {
                        assert(s0[k as int] < s0[j]);
                    }
                }
            }
            self.selected_indices.insert(k, index);
            let ghost s1 = self.selected_indices@;
            assert(s1 =~= s0.insert(k as int, index));
            assert(ascending(s1)) by {
                assert forall|a: int, b: int| 0 <= a < b < s1.len() implies s1[a] < s1[b] by {
                    if b < k {
                        assert(s1[a] == s0[a] && s1[b] == s0[b]);
                    } else if b == k {
                        assert(s1[a] == s0[a]);
                    } else if a == k {
                        assert(s1[b] == s0[b - 1]);
                        assert(s0[b - 1] >= index);
                    } else if a < k {
                        assert(s1[a] == s0[a] && s1[b] == s0[b - 1]);
                        assert(s0[a] < index);
                        assert(s0[b - 1] >= index);
                    } else {
                        assert(s1[a] == s0[a - 1] && s1[b] == s0[b - 1]);
                    }
                }
            }
            assert(s1.to_set() =~= s0.to_set().insert(index)) by {
                assert forall|x: usize| s1.to_set().contains(x) <==> s0.to_set().insert(index).contains(x) by {
                    if s1.contains(x) {
                        let j = choose|j: int| 0 <= j < s1.len() && s1[j] == x;
                        if j < k {
                            assert(s0[j] == x);
                        } else if j > k {
                            assert(s0[j - 1] == x);
                        }
                    }
                    if s0.contains(x) {
                        let j = choose|j: int| 0 <= j < s0.len() && s0[j] == x;
                        if j < k {
                            assert(s1[j] == x);
                        } else {
                            assert(s1[j + 1] == x);
                        }
                    }
                    if x == index {
                        assert(s1[k as int] == x);
                    }
                }
            }
            self.selected = Some(index);
            self.anchor = Some(index);
        }
    }

    /// Selects the visible rows from the anchor (else the cursor, else the
    /// first row; clamped to the list) to `index` (clamped too), both ends
    /// included; the cursor moves to `index`. Nothing happens without rows.
    pub fn select_range_visible(&mut self, index: usize, count: usize)
        requires
            ascending(old(self).selected_indices@),
        ensures
            count == 0 ==> final(self).selected == old(self).selected
                && final(self).selected_indices == old(self).selected_indices && final(self).anchor
                == old(self).anchor,
            count > 0 ==> {
                let target = if index < count { index as int } else { count - 1 };
                let from = match old(self).anchor {
                    Some(a) => a as int,
                    None => match old(self).selected {
                        Some(c) => c as int,
                        None => 0,
                    },
                };
                let a = if from < count { from } else { count - 1 };
                let start = if a < target { a } else { target };
                let end = if a < target { target } else { a };
                &&& final(self).selected_indices@ == index_range(start, end)
                &&& final(self).selected == Some(target as usize)
                &&& final(self).anchor == old(self).anchor
            },
            ascending(final(self).selected_indices@),
            count > 0 ==> forall|i: int| 0 <= i < final(self).selected_indices@.len() ==> #[trigger] final(self).selected_indices@[i] < count,
            final(self).cwd == old(self).cwd,
            final(self).entries == old(self).entries,
            final(self).filter == old(self).filter,
            final(self).id == old(self).id,
    {
        if count == 0 {
            return;
        }
        let target = if index < count { index } else { count - 1 };
        let from = match self.anchor {
            Some(a) => a,
            None => match self.selected {
                Some(c) => c,
                None => 0,
            },
        };
        let a = if from < count { from } else { count - 1 };
        let start = if a < target { a } else { target };
        let end = if a < target { target } else { a };
        let mut v: Vec<usize> = Vec::new();
        let mut i = start;
        while i <= end
            invariant
                start <= i <= end + 1,
                end < count,
                v@ == index_range(start as int, i - 1),
            decreases end + 1 - i,
        {
            v.push(i);
            i = i + 1;
            assert(v@ =~= index_range(start as int, i - 1));
        }
        self.selected_indices = v;
        self.selected = Some(target);
    }
}

impl TabState {
    /// Selects every one of the `count` visible rows; the cursor and anchor
    /// go to the first row, if there is one.
    pub fn select_all(&mut self, count: usize)
        ensures
            final(self).selected_indices@ == index_range(0, count - 1),
            ascending(final(self).selected_indices@),
            final(self).selected == (if count > 0 { Some(0usize) } else { None }),
            final(self).anchor == (if count > 0 { Some(0usize) } else { None }),
            final(self).cwd == old(self).cwd,
            final(self).entries == old(self).entries,
            final(self).filter == old(self).filter,
            final(self).id == old(self).id,
    {
        let mut v: Vec<usize> = Vec::new();
        let mut i: usize = 0;
        while i < count
            invariant
                i <= count,
                v@ == index_range(0, i - 1),
            decreases count - i,
        {
            v.push(i);
            i = i + 1;
            assert(v@ =~= index_range(0, i - 1));
        }
        self.selected_indices = v;
        if count > 0 {
            self.selected = Some(0);
            self.anchor = Some(0);
        } else {
            self.selected = None;
            self.anchor = None;
        }
    }

    /// Moves the cursor by `delta` rows among the `count` visible rows (see
    /// [`moved_cursor`]), selecting the new row alone, or, with
    /// `extend_selection`, the range from the anchor to it. Without rows the
    /// selection is cleared.
    pub fn move_selection_ext(&mut self, delta: i64, extend_selection: bool, count: usize)
        requires
            ascending(old(self).selected_indices@),
        ensures
            ascending(final(self).selected_indices@),
            count == 0 ==> final(self).selected is None && final(self).selected_indices@.len() == 0
                && final(self).anchor is None,
            count > 0 ==> final(self).selected == Some(moved_cursor(old(self).selected, delta, count)),
            count > 0 && !extend_selection ==> final(self).selected_indices@ == seq![
                moved_cursor(old(self).selected, delta, count),
            ] && final(self).anchor == Some(moved_cursor(old(self).selected, delta, count)),
            count > 0 && extend_selection ==> {
                let target = moved_cursor(old(self).selected, delta, count) as int;
                let from = match old(self).anchor {
                    Some(a) => a as int,
                    None => match old(self).selected {
                        Some(c) => c as int,
                        None => 0,
                    },
                };
                let a = if from < count { from } else { count - 1 };
                let start = if a < target { a } else { target };
                let end = if a < target { target } else { a };
                &&& final(self).selected_indices@ == index_range(start, end)
                &&& final(self).anchor == old(self).anchor
            },
            final(self).cwd == old(self).cwd,
            final(self).entries == old(self).entries,
            final(self).filter == old(self).filter,
            final(self).id == old(self).id,
    {
        if count == 0 {
            self.clear_selection();
            return;
        }
        let next: usize = match self.selected {
            None => if delta >= 0 {
                0
            } else {
                count - 1
            },
            Some(cur) => {
                let moved: i128 = cur as i128 + delta as i128;
                if moved < 0 {
                    0
                } else if moved > (count - 1) as i128 {
                    count - 1
                } else {
                    moved as usize
                }
            },
        };
        assert(next == moved_cursor(old(self).selected, delta, count));
        if extend_selection {
            self.select_range_visible(next, count);
        } else {
            self.select_visible(next, count);
        }
    }

    /// Moves the cursor by `delta` rows, selecting that row alone.
    pub fn move_selection(&mut self, delta: i64, count: usize)
        requires
            ascending(old(self).selected_indices@),
        ensures
            ascending(final(self).selected_indices@),
            count == 0 ==> final(self).selected is None && final(self).selected_indices@.len() == 0,
            count > 0 ==> final(self).selected == Some(moved_cursor(old(self).selected, delta, count))
                && final(self).selected_indices@ == seq![moved_cursor(old(self).selected, delta, count)],
    {
        self.move_selection_ext(delta, false, count);
    }
}

/// Whether the chooser filter `f` lets a file with `name` at `path` through:
/// a filter without rules lets everything through.
pub open spec fn filter_allows(f: FileFilter, name: Seq<char>, path: Seq<char>) -> bool {
    f.rules@.len() == 0 || exists|i: int| 0 <= i < f.rules@.len() && rule_allows(#[trigger] f.rules@[i], name, path)
}

/// Whether `e` is listed under the lower-cased filter text `q` and the
/// chooser filter `ff` in directory `cwd`: its lower-cased name contains `q`,
/// and directories always pass the chooser filter.
pub open spec fn entry_visible(e: Entry, q: Seq<char>, ff: Option<FileFilter>, cwd: Seq<char>) -> bool {
    &&& (q.len() == 0 || contains_sub(lower(e.name@), q))
    &&& match ff {
        Some(f) => e.navigable || filter_allows(f, e.name@, join_spec(cwd, e.name@)),
        None => true,
    }
}

/// The indices below `n` of the entries listed under `q`, `ff` and `cwd`, in order.
pub open spec fn visible_upto(entries: Seq<Entry>, q: Seq<char>, ff: Option<FileFilter>, cwd: Seq<char>, n: int) -> Seq<usize>
    decreases n,
{
    if n <= 0 {
        Seq::empty()
    } else if entry_visible(entries[n - 1], q, ff, cwd) {
        visible_upto(entries, q, ff, cwd, n - 1).push((n - 1) as usize)
    } else {
        visible_upto(entries, q, ff, cwd, n - 1)
    }
}

/// The indices of the listed entries: those whose name contains the trimmed,
/// lower-cased `filter` (ignoring case) and, under a chooser `file_filter`,
/// directories and the files it allows.
pub open spec fn visible_spec(entries: Seq<Entry>, filter: Seq<char>, ff: Option<FileFilter>, cwd: Seq<char>) -> Seq<usize> {
    visible_upto(entries, lower(trim(filter)), ff, cwd, entries.len() as int)
}

/// Indices (into `entries`) of the rows shown in directory `cwd` under the
/// filter text and the chooser's file filter.
pub fn visible_indices(entries: &[Entry], filter: &str, file_filter: Option<&FileFilter>, cwd: &str) -> (r: Vec<usize>)
    ensures
        r@ == visible_spec(
            entries@,
            filter@,
            match file_filter {
                Some(f) => Some(*f),
                None => None,
            },
            cwd@,
        ),
{
    let ghost ff = match file_filter {
        Some(f) => Some(*f),
        None => None,
    };
    let fc = chars_of(filter);
    let t = trimmed(fc.as_slice());
    let q = lowercase(t.as_slice());
    let mut out: Vec<usize> = Vec::new();
    let n = entries.len();
    let mut i: usize = 0;
    while i < n
        invariant
            n == entries@.len(),
            i <= n,
            q@ == lower(trim(filter@)),
            ff == match file_filter {
                Some(f) => Some(*f),
                None => None,
            },
            out@ == visible_upto(entries@, q@, ff, cwd@, i as int),
        decreases n - i,
    {
        let e = &entries[i];
        let name = chars_of(e.name.as_str());
        let mut keep = true;
        if q.len() > 0 {
            let low = lowercase(name.as_slice());
            if !contains_chars(low.as_slice(), q.as_slice()) {
                keep = false;
            }
        }
        if keep {
            match file_filter {
                Some(f) => {
                    if !e.navigable {
                        let full = join(cwd, e.name.as_str());
                        if !f.allows(e.name.as_str(), full.as_str()) {
                            keep = false;
                        }
                    }
                },
                None => {},
            }
        }
        assert(keep == entry_visible(entries@[i as int], q@, ff, cwd@));
        if keep {
            out.push(i);
        }
        i = i + 1;
    }
    out
}

/// Where navigating to `raw` leads from `cwd`: absolute and `~` paths (and
/// any path before the first directory) are normalised, others resolved
/// against `cwd`.
pub open spec fn navigation_target_spec(cwd: Seq<char>, raw: Seq<char>, home: Seq<char>) -> Seq<char> {
    if (raw.len() > 0 && (raw[0] == '/' || raw[0] == '~')) || cwd.len() == 0 {
        normalize_spec(raw, home)
    } else {
        resolve_spec(cwd, raw, home)
    }
}

/// The directory that navigating to `raw` from `cwd` opens.
pub fn navigation_target(cwd: &str, raw: &str, home: &str) -> (r: String)
    ensures
        r@ == navigation_target_spec(cwd@, raw@, home@),
{
    let rc = chars_of(raw);
    let cc = chars_of(cwd);
    if (rc.len() > 0 && (rc[0] == '/' || rc[0] == '~')) || cc.len() == 0 {
        normalize(raw, home)
    } else {
        resolve(cwd, raw, home)
    }
}

/// The directory a new tab opens: the current one, or `requested`
/// (normalised when absolute or `~`, else resolved against `cwd`).
pub open spec fn new_tab_target_spec(cwd: Seq<char>, requested: Option<Seq<char>>, home: Seq<char>) -> Seq<char> {
    match requested {
        None => cwd,
        Some(raw) => if raw.len() > 0 && (raw[0] == '/' || raw[0] == '~') {
            normalize_spec(raw, home)
        } else {
            resolve_spec(cwd, raw, home)
        },
    }
}

/// The directory a new tab opens from `cwd` for an optional request.
pub fn new_tab_target(cwd: &str, requested: Option<&str>, home: &str) -> (r: String)
    ensures
        r@ == new_tab_target_spec(
            cwd@,
            match requested {
                Some(q) => Some(q@),
                None => None,
            },
            home@,
        ),
{
    match requested {
        None => String::from_str(cwd),
        Some(raw) => {
            let rc = chars_of(raw);
            if rc.len() > 0 && (rc[0] == '/' || rc[0] == '~') {
                normalize(raw, home)
            } else {
                resolve(cwd, raw, home)
            }
        },
    }
}

/// The sort order after choosing column `key`: the same column flips the
/// direction, another column sorts ascending.
pub fn toggle_sort(current: SortKey, ascending: bool, key: SortKey) -> (r: (SortKey, bool))
    ensures
        r == (if current == key { (current, !ascending) } else { (key, true) }),
{
    if current == key {
        (current, !ascending)
    } else {
        (key, true)
    }
}

/// The open tabs and which one is active.
pub struct Tabs {
    pub tabs: Vec<TabState>,
    pub active: usize,
    pub next_id: u64,
}

impl Tabs {
    /// At least one tab, and the active one among them.
    pub open spec fn wf(&self) -> bool {
        self.tabs@.len() >= 1 && self.active < self.tabs@.len()
    }

    /// One fresh tab (id 1), active.
    pub fn new() -> (t: Tabs)
        ensures
            t.wf(),
            t.tabs@.len() == 1,
            t.tabs@[0].id == 1,
            t.active == 0,
            t.next_id == 2,
    {
        let mut tabs: Vec<TabState> = Vec::new();
        tabs.push(TabState::empty(1));
        Tabs { tabs, active: 0, next_id: 2 }
    }

    /// Opens a fresh tab after the others and makes it active; returns its id.
    pub fn open_tab(&mut self) -> (id: u64)
        requires
            old(self).wf(),
            old(self).next_id < u64::MAX,
        ensures
            final(self).wf(),
            id == old(self).next_id,
            final(self).next_id == old(self).next_id + 1,
            final(self).tabs@.len() == old(self).tabs@.len() + 1,
            final(self).tabs@.take(old(self).tabs@.len() as int) == old(self).tabs@,
            final(self).tabs@.last().id == id,
            final(self).tabs@.last().cwd@.len() == 0,
            final(self).active == old(self).tabs@.len(),
    {
        let id = self.next_id;
        self.next_id = self.next_id + 1;
        self.tabs.push(TabState::empty(id));
        self.active = self.tabs.len() - 1;
        assert(self.tabs@.take(old(self).tabs@.len() as int) =~= old(self).tabs@);
        id
    }

    /// Closes tab `index`; the last remaining tab is never closed. The
    /// active tab stays the same tab where it survives, else the tab that
    /// took its place (or the new last tab). Returns whether a tab closed.
    pub fn close_tab(&mut self, index: usize) -> (closed: bool)
        requires
            old(self).wf(),
        ensures
            final(self).wf(),
            closed == (old(self).tabs@.len() > 1 && index < old(self).tabs@.len()),
            closed ==> final(self).tabs@ == old(self).tabs@.remove(index as int) && final(self).active == (
            if old(self).active > index {
                (old(self).active - 1) as usize
            } else if old(self).active >= final(self).tabs@.len() {
                (final(self).tabs@.len() - 1) as usize
            } else {
                old(self).active
            }),
            !closed ==> final(self).tabs@ == old(self).tabs@ && final(self).active == old(self).active,
            final(self).next_id == old(self).next_id,
    {
        if self.tabs.len() == 1 || index >= self.tabs.len() {
            return false;
        }
        self.tabs.remove(index);
        if self.active > index {
            self.active = self.active - 1;
        } else if self.active >= self.tabs.len() {
            self.active = self.tabs.len() - 1;
        }
        true
    }

    /// Makes tab `index` active; returns whether the active tab changed.
    pub fn switch_tab(&mut self, index: usize) -> (switched: bool)
        requires
            old(self).wf(),
        ensures
            final(self).wf(),
            switched == (index < old(self).tabs@.len() && index != old(self).active),
            final(self).active == (if switched { index } else { old(self).active }),
            final(self).tabs == old(self).tabs,
            final(self).next_id == old(self).next_id,
    {
        if index >= self.tabs.len() || index == self.active {
            return false;
        }
        self.active = index;
        true
    }

    /// Activates the next tab (or the previous one), wrapping around; nothing
    /// happens with a single tab. Returns whether the active tab changed.
    pub fn cycle_tab(&mut self, backwards: bool) -> (switched: bool)
        requires
            old(self).wf(),
        ensures
            final(self).wf(),
            switched == (old(self).tabs@.len() >= 2),
            switched ==> final(self).active == (if backwards {
                if old(self).active == 0 {
                    old(self).tabs@.len() - 1
                } else {
                    old(self).active - 1
                }
            } else {
                if old(self).active + 1 == old(self).tabs@.len() {
                    0
                } else {
                    old(self).active + 1
                }
            }),
            !switched ==> final(self).active == old(self).active,
            final(self).tabs == old(self).tabs,
            final(self).next_id == old(self).next_id,
    {
        let n = self.tabs.len();
        if n < 2 {
            return false;
        }
        let target = if backwards {
            if self.active == 0 {
                n - 1
            } else {
                self.active - 1
            }
        } else {
            if self.active + 1 == n {
                0
            } else {
                self.active + 1
            }
        };
        self.switch_tab(target)
    }
}

impl TabState {
    /// The entry under the cursor: the cursor addresses `visible`, which
    /// addresses `entries`.
    pub open spec fn selected_entry_spec(&self, visible: Seq<usize>) -> Option<usize> {
        match self.selected {
            Some(v) => if v < visible.len() && visible[v as int] < self.entries@.len() {
                Some(visible[v as int])
            } else {
                None
            },
            None => None,
        }
    }

    /// Index into `entries` of the entry under the cursor.
    pub fn selected_entry(&self, visible: &[usize]) -> (r: Option<usize>)
        ensures
            r == self.selected_entry_spec(visible@),
    {
        match self.selected {
            Some(v) => if v < visible.len() && visible[v] < self.entries.len() {
                Some(visible[v])
            } else {
                None
            },
            None => None,
        }
    }

    /// Indices into `entries` of the selected rows, in selection order;
    /// rows that no longer exist are skipped.
    pub open spec fn selected_entries_spec(&self, visible: Seq<usize>, k: int) -> Seq<usize>
        decreases k,
    {
        if k <= 0 {
            Seq::empty()
        } else {
            let rest = self.selected_entries_spec(visible, k - 1);
            let v = self.selected_indices@[k - 1];
            if v < visible.len() && visible[v as int] < self.entries@.len() {
                rest.push(visible[v as int])
            } else {
                rest
            }
        }
    }

    /// Indices into `entries` of all selected rows.
    pub fn selected_entries(&self, visible: &[usize]) -> (r: Vec<usize>)
        ensures
            r@ == self.selected_entries_spec(visible@, self.selected_indices@.len() as int),
    {
        let mut out: Vec<usize> = Vec::new();
        let n = self.selected_indices.len();
        let mut k: usize = 0;
        while k < n
            invariant
                n == self.selected_indices@.len(),
                k <= n,
                out@ == self.selected_entries_spec(visible@, k as int),
            decreases n - k,
        {
            let v = self.selected_indices[k];
            if v < visible.len() && visible[v] < self.entries.len() {
                out.push(visible[v]);
            }
            k = k + 1;
        }
        out
    }

    /// Paths of the selected entries in directory `cwd`; without a
    /// multi-selection, the path of the entry under the cursor, if any.
    pub fn selected_paths(&self, visible: &[usize]) -> (r: Vec<String>)
        ensures
            ({
                let sel = self.selected_entries_spec(visible@, self.selected_indices@.len() as int);
                if sel.len() == 0 {
                    match self.selected_entry_spec(visible@) {
                        Some(e) => r@.len() == 1 && r@[0]@ == join_spec(self.cwd@, self.entries@[e as int].name@),
                        None => r@.len() == 0,
                    }
                } else {
                    r@.len() == sel.len() && forall|i: int| 0 <= i < sel.len() ==> #[trigger] r@[i]@ == join_spec(
                        self.cwd@,
                        self.entries@[sel[i] as int].name@,
                    )
                }
            }),
    {
        let sel = self.selected_entries(visible);
        let mut out: Vec<String> = Vec::new();
        if sel.len() == 0 {
            match self.selected_entry(visible) {
                Some(e) => {
                    out.push(child_path(self.cwd.as_str(), self.entries[e].name.as_str()));
                },
                None => {},
            }
            return out;
        }
        proof {
            self.lemma_selected_entries_bound(visible@, self.selected_indices@.len() as int);
        }
        let mut k: usize = 0;
        while k < sel.len()
            invariant
                k <= sel@.len(),
                sel@ == self.selected_entries_spec(visible@, self.selected_indices@.len() as int),
                forall|j: int| 0 <= j < sel@.len() ==> sel@[j] < self.entries@.len(),
                out@.len() == k,
                forall|i: int| 0 <= i < k ==> #[trigger] out@[i]@ == join_spec(
                    self.cwd@,
                    self.entries@[sel@[i] as int].name@,
                ),
            decreases sel@.len() - k,
        {
            out.push(child_path(self.cwd.as_str(), self.entries[sel[k]].name.as_str()));
            k = k + 1;
        }
        out
    }

    proof fn lemma_selected_entries_bound(&self, visible: Seq<usize>, k: int)
        ensures
            forall|j: int| 0 <= j < self.selected_entries_spec(visible, k).len() ==> #[trigger] self.selected_entries_spec(visible, k)[j] < self.entries@.len(),
        decreases k,
    {
        if k > 0 {
            self.lemma_selected_entries_bound(visible, k - 1);
            let rest = self.selected_entries_spec(visible, k - 1);
            let all = self.selected_entries_spec(visible, k);
            assert forall|j: int| 0 <= j < all.len() implies #[trigger] all[j] < self.entries@.len() by {
                if j < rest.len() {
                    assert(all[j] == rest[j]);
                }
            }
        }
    }

    /// Puts the cursor on the visible row whose entry is named `name`
    /// (the first such row), or removes it when there is none.
    pub fn select_by_name(&mut self, name: &str, visible: &[usize])
        ensures
            match final(self).selected {
                Some(p) => p < visible@.len() && visible@[p as int] < old(self).entries@.len()
                    && old(self).entries@[visible@[p as int] as int].name@ == name@ && forall|j: int|
                    0 <= j < p ==> !(visible@[j] < old(self).entries@.len() && old(self).entries@[visible@[j] as int].name@ == name@),
                None => forall|j: int| 0 <= j < visible@.len() ==> !(visible@[j] < old(self).entries@.len() && old(self).entries@[visible@[j] as int].name@ == name@),
            },
            final(self).selected_indices == old(self).selected_indices,
            final(self).anchor == old(self).anchor,
            final(self).entries == old(self).entries,
            final(self).cwd == old(self).cwd,
            final(self).filter == old(self).filter,
            final(self).id == old(self).id,
            final(self).history == old(self).history,
            final(self).read_error == old(self).read_error,
            final(self).miller_columns == old(self).miller_columns,
    {
        let n = visible.len();
        let mut k: usize = 0;
        while k < n
            invariant
                n == visible@.len(),
                k <= n,
                self.entries == old(self).entries,
                self.selected_indices == old(self).selected_indices,
                self.anchor == old(self).anchor,
                self.cwd == old(self).cwd,
                self.filter == old(self).filter,
                self.id == old(self).id,
                self.history == old(self).history,
                self.read_error == old(self).read_error,
                self.miller_columns == old(self).miller_columns,
                forall|j: int| 0 <= j < k ==> !(visible@[j] < old(self).entries@.len() && old(self).entries@[visible@[j] as int].name@ == name@),
            decreases n - k,
        {
            let e = visible[k];
            if e < self.entries.len() && str_eq(self.entries[e].name.as_str(), name) {
                self.selected = Some(k);
                return;
            }
            k = k + 1;
        }
        self.selected = None;
    }
}

/// The cursor is on the first visible row whose entry is named `name`, or
/// nowhere when there is none.
pub open spec fn cursor_on_first(sel: Option<usize>, visible: Seq<usize>, entries: Seq<Entry>, name: Seq<char>) -> bool {
    match sel {
        Some(p) => p < visible.len() && visible[p as int] < entries.len() && entries[visible[p as int] as int].name@
            == name && forall|j: int|
            0 <= j < p ==> !(visible[j] < entries.len() && entries[visible[j] as int].name@ == name),
        None => forall|j: int|
            0 <= j < visible.len() ==> !(visible[j] < entries.len() && entries[visible[j] as int].name@ == name),
    }
}

pub open spec fn ff_view(f: Option<&FileFilter>) -> Option<FileFilter> {
    match f {
        Some(x) => Some(*x),
        None => None,
    }
}

/// The tab showing `path` with its listing: the cursor, the selection, the
/// range anchor and the filter text are reset; a listing that failed leaves
/// no entries and records the error.
pub open spec fn shows(t: TabState, old_t: TabState, path: Seq<char>, listing: Result<Seq<Entry>, Seq<char>>) -> bool {
    &&& t.cwd@ == path
    &&& t.id == old_t.id
    &&& t.miller_columns == old_t.miller_columns
    &&& t.selected is None
    &&& t.selected_indices@.len() == 0
    &&& t.anchor is None
    &&& t.filter@.len() == 0
    &&& match listing {
        Ok(es) => t.entries@ == es && t.read_error is None,
        Err(e) => t.entries@.len() == 0 && (t.read_error matches Some(m) && m@ == e),
    }
}

pub open spec fn listing_view(l: Result<Vec<Entry>, String>) -> Result<Seq<Entry>, Seq<char>> {
    match l {
        Ok(es) => Ok(es@),
        Err(e) => Err(e@),
    }
}

impl TabState {
    /// Show the directory `path`, given the result of listing it (see
    /// [`shows`]); the history is not touched.
    pub fn set_dir(&mut self, path: String, listing: Result<Vec<Entry>, String>)
        ensures
            shows(*final(self), *old(self), path@, listing_view(listing)),
            final(self).history == old(self).history,
    {
        self.cwd = path;
        self.selected = None;
        self.selected_indices = Vec::new();
        self.anchor = None;
        self.filter = String::new();
        match listing {
            Ok(entries) => {
                self.entries = entries;
                self.read_error = None;
            },
            Err(e) => {
                self.entries = Vec::new();
                self.read_error = Some(e);
            },
        }
    }

    /// Go to the directory `resolved` (see [`navigation_target`]), given
    /// whether it is a directory and the result of listing it: a path that
    /// is not a directory is reported and nothing changes; otherwise it
    /// joins the history and is shown.
    pub fn navigate_to(&mut self, resolved: String, is_dir: bool, listing: Result<Vec<Entry>, String>) -> (r:
        Option<Notice>)
        ensures
            !is_dir ==> *final(self) == *old(self) && (r matches Some(Notice::NotADirectory(p)) && p@
                == resolved@),
            is_dir ==> r is None && final(self).history@ == old(self).history@.push(resolved@) && shows(
                *final(self),
                *old(self),
                resolved@,
                listing_view(listing),
            ),
    {
        if !is_dir {
            return Some(Notice::NotADirectory(resolved));
        }
        self.history.push(resolved.as_str());
        self.set_dir(resolved, listing);
        None
    }

    /// Step back in the history: the directory to show next (the caller
    /// lists it and calls [`TabState::set_dir`]), or none at the start.
    pub fn back_target(&mut self) -> (r: Option<String>)
        ensures
            final(self).history@ == old(self).history@.back(),
            match r {
                Some(p) => old(self).history@.can_go_back() && final(self).history@.current() == Some(p@),
                None => !old(self).history@.can_go_back(),
            },
            final(self).cwd == old(self).cwd,
            final(self).entries == old(self).entries,
    {
        match self.history.go_back() {
            Some(p) => Some(p.to_string()),
            None => None,
        }
    }

    /// Step forward in the history: the directory to show next, or none at
    /// the end.
    pub fn forward_target(&mut self) -> (r: Option<String>)
        ensures
            final(self).history@ == old(self).history@.forward(),
            match r {
                Some(p) => old(self).history@.can_go_forward() && final(self).history@.current() == Some(p@),
                None => !old(self).history@.can_go_forward(),
            },
            final(self).cwd == old(self).cwd,
            final(self).entries == old(self).entries,
    {
        match self.history.go_forward() {
            Some(p) => Some(p.to_string()),
            None => None,
        }
    }

    /// Where going up leads: the parent of the shown directory, unless it
    /// is the directory itself (the root).
    pub fn up_target(&self, home: &str) -> (r: Option<String>)
        ensures
            match r {
                Some(p) => p@ == parent_spec(self.cwd@, home@) && p@ != self.cwd@,
                None => parent_spec(self.cwd@, home@) == self.cwd@,
            },
    {
        let p = parent(self.cwd.as_str(), home);
        if str_eq(p.as_str(), self.cwd.as_str()) {
            None
        } else {
            Some(p)
        }
    }

    /// Reload the shown directory with a fresh listing: the filter text
    /// stays, and the cursor returns to the entry it was on (by name), if it
    /// is still shown.
    pub fn refresh(&mut self, listing: Result<Vec<Entry>, String>, file_filter: Option<&FileFilter>)
        ensures
            ({
                let ov = visible_spec(old(self).entries@, old(self).filter@, ff_view(file_filter), old(self).cwd@);
                let nv = visible_spec(final(self).entries@, final(self).filter@, ff_view(file_filter), final(self).cwd@);
                &&& final(self).cwd@ == old(self).cwd@
                &&& final(self).filter == old(self).filter
                &&& final(self).id == old(self).id
                &&& final(self).history == old(self).history
                &&& final(self).selected_indices@.len() == 0
                &&& final(self).anchor is None
                &&& match listing_view(listing) {
                    Ok(es) => final(self).entries@ == es && final(self).read_error is None,
                    Err(e) => final(self).entries@.len() == 0 && (final(self).read_error matches Some(m) && m@ == e),
                }
                &&& match old(self).selected_entry_spec(ov) {
                    Some(i) => cursor_on_first(final(self).selected, nv, final(self).entries@, old(self).entries@[i as int].name@),
                    None => final(self).selected is None,
                }
            }),
    {
        let ov = visible_indices(self.entries.as_slice(), self.filter.as_str(), file_filter, self.cwd.as_str());
        let name = match self.selected_entry(ov.as_slice()) {
            Some(i) => Some(self.entries[i].name.clone()),
            None => None,
        };
        let filter = self.filter.clone();
        let cwd = self.cwd.clone();
        self.set_dir(cwd, listing);
        self.filter = filter;
        match name {
            Some(n) => {
                let nv = visible_indices(self.entries.as_slice(), self.filter.as_str(), file_filter, self.cwd.as_str());
                self.select_by_name(n.as_str(), nv.as_slice());
            },
            None => {},
        }
    }
}

/// The paths of a list of bookmarks.
pub open spec fn mark_paths(marks: Seq<Bookmark>) -> Seq<Seq<char>> {
    Seq::new(marks.len(), |i: int| marks[i].path@)
}

/// Index of the first of `paths` equal to `p`, from `i`.
pub open spec fn first_path_from(paths: Seq<Seq<char>>, p: Seq<char>, i: int) -> Option<int>
    decreases paths.len() - i,
{
    if i < 0 || i >= paths.len() {
        None
    } else if paths[i] == p {
        Some(i)
    } else {
        first_path_from(paths, p, i + 1)
    }
}

proof fn lemma_first_path_from(paths: Seq<Seq<char>>, p: Seq<char>, i: int)
    requires
        0 <= i,
    ensures
        first_path_from(paths, p, i) matches Some(j) ==> i <= j < paths.len() && paths[j] == p,
        first_path_from(paths, p, i) is None ==> forall|j: int| i <= j < paths.len() ==> paths[j] != p,
    decreases paths.len() - i,
{
    if i < paths.len() && paths[i] != p {
        lemma_first_path_from(paths, p, i + 1);
    }
}

fn first_mark(marks: &Vec<Bookmark>, p: &str) -> (r: Option<usize>)
    ensures
        opt_usize(r) == first_path_from(mark_paths(marks@), p@, 0),
{
    let mut k: usize = 0;
    while k < marks.len()
        invariant
            k <= marks@.len(),
            first_path_from(mark_paths(marks@), p@, k as int) == first_path_from(mark_paths(marks@), p@, 0),
        decreases marks@.len() - k,
    {
        if str_eq(marks[k].path.as_str(), p) {
            return Some(k);
        }
        k = k + 1;
    }
    None
}

/// An optional index as a mathematical integer.
pub open spec fn opt_usize(r: Option<usize>) -> Option<int> {
    match r {
        Some(i) => Some(i as int),
        None => None,
    }
}

/// Whether `path` is among the bookmarks.
pub fn is_bookmarked(marks: &Vec<Bookmark>, path: &str) -> (r: bool)
    ensures
        r == mark_paths(marks@).contains(path@),
{
    proof {
        lemma_first_path_from(mark_paths(marks@), path@, 0);
    }
    let found = first_mark(marks, path);
    proof {
        if mark_paths(marks@).contains(path@) {
            let j = choose|j: int| 0 <= j < mark_paths(marks@).len() && mark_paths(marks@)[j] == path@;
            assert(mark_paths(marks@)[j] == path@);
        }
    }
    found.is_some()
}

/// What toggling a bookmark did.
#[derive(Clone, Copy, Debug, PartialEq, Eq, Structural)]
pub enum BookmarkChange {
    Added,
    Removed,
    /// The path is a fixed bookmark (home, a user directory, the trash).
    Kept,
}

/// Adds the normalised `path` as a bookmark, or removes it when it is already
/// a user folder bookmark; fixed bookmarks stay. Returns the change and the
/// normalised path.
pub fn toggle_bookmark(marks: &mut Vec<Bookmark>, path: &str, home: &str) -> (r: (BookmarkChange, String))
    ensures
        r.1@ == normalize_spec(path@, home@),
        match first_path_from(mark_paths(old(marks)@), r.1@, 0) {
            Some(i) => if old(marks)@[i].kind == BookmarkKind::Folder {
                r.0 == BookmarkChange::Removed && final(marks)@ == old(marks)@.remove(i)
            } else {
                r.0 == BookmarkChange::Kept && final(marks)@ == old(marks)@
            },
            None => r.0 == BookmarkChange::Added && final(marks)@.len() == old(marks)@.len() + 1
                && final(marks)@.take(old(marks)@.len() as int) == old(marks)@
                && final(marks)@.last().path@ == r.1@ && final(marks)@.last().kind == kind_spec(r.1@, home@),
        },
{
    let p = normalize(path, home);
    proof {
        lemma_first_path_from(mark_paths(marks@), p@, 0);
    }
    match first_mark(marks, p.as_str()) {
        Some(i) => {
            let is_folder = match marks[i].kind {
                BookmarkKind::Folder => true,
                _ => false,
            };
            if is_folder {
                marks.remove(i);
                (BookmarkChange::Removed, p)
            } else {
                (BookmarkChange::Kept, p)
            }
        },
        None => {
            marks.push(Bookmark::for_path(p.as_str(), home));
            assert(marks@.take(old(marks)@.len() as int) =~= old(marks)@);
            (BookmarkChange::Added, p)
        },
    }
}

/// Adds the normalised `path` as a bookmark unless it is one already;
/// returns whether it was added.
pub fn add_bookmark(marks: &mut Vec<Bookmark>, path: &str, home: &str) -> (added: bool)
    ensures
        added == !mark_paths(old(marks)@).contains(normalize_spec(path@, home@)),
        added ==> final(marks)@.len() == old(marks)@.len() + 1 && final(marks)@.take(old(marks)@.len() as int)
            == old(marks)@ && final(marks)@.last().path@ == normalize_spec(path@, home@)
            && final(marks)@.last().kind == kind_spec(normalize_spec(path@, home@), home@),
        !added ==> final(marks)@ == old(marks)@,
{
    let p = normalize(path, home);
    if is_bookmarked(marks, p.as_str()) {
        return false;
    }
    marks.push(Bookmark::for_path(p.as_str(), home));
    assert(marks@.take(old(marks)@.len() as int) =~= old(marks)@);
    true
}

/// Toggling a folder bookmark that is not in the list adds it at the end,
/// and toggling it again removes exactly that entry, restoring the list.
pub proof fn law_bookmark_toggle_roundtrip(marks: Seq<Bookmark>, added: Bookmark)
    requires
        !mark_paths(marks).contains(added.path@),
        added.kind == BookmarkKind::Folder,
    ensures
        first_path_from(mark_paths(marks), added.path@, 0) is None,
        first_path_from(mark_paths(marks.push(added)), added.path@, 0) == Some(marks.len() as int),
        marks.push(added).remove(marks.len() as int) == marks,
{
    lemma_first_path_from(mark_paths(marks), added.path@, 0);
    let m1 = marks.push(added);
    lemma_first_path_from(mark_paths(m1), added.path@, 0);
    assert forall|j: int| 0 <= j < marks.len() implies mark_paths(m1)[j] != added.path@ by {
        assert(mark_paths(m1)[j] == mark_paths(marks)[j]);
        if mark_paths(marks)[j] == added.path@ {
            assert(mark_paths(marks).contains(added.path@));
        }
    }
    assert(mark_paths(m1)[marks.len() as int] == added.path@);
    assert(m1.remove(marks.len() as int) =~= marks);
    if first_path_from(mark_paths(marks), added.path@, 0) matches Some(j) {
        assert(mark_paths(marks).contains(added.path@));
    }
}

/// The paths of the user (folder) bookmarks among the first `k`, in order.
pub open spec fn folder_paths(marks: Seq<Bookmark>, k: int) -> Seq<Seq<char>>
    decreases k,
{
    if k <= 0 {
        Seq::empty()
    } else if marks[k - 1].kind == BookmarkKind::Folder {
        folder_paths(marks, k - 1).push(marks[k - 1].path@)
    } else {
        folder_paths(marks, k - 1)
    }
}

/// The user (folder) bookmarks' paths, in order, as saved in the configuration.
pub fn user_bookmark_paths(marks: &Vec<Bookmark>) -> (r: Vec<String>)
    ensures
        crate::xdg::clipboard::strings(r@) == folder_paths(marks@, marks@.len() as int),
{
    let mut out: Vec<String> = Vec::new();
    let mut k: usize = 0;
    while k < marks.len()
        invariant
            k <= marks@.len(),
            crate::xdg::clipboard::strings(out@) == folder_paths(marks@, k as int),
        decreases marks@.len() - k,
    {
        let is_folder = match marks[k].kind {
            BookmarkKind::Folder => true,
            _ => false,
        };
        if is_folder {
            let ghost before = out@;
            out.push(marks[k].path.clone());
            assert(crate::xdg::clipboard::strings(out@) =~= crate::xdg::clipboard::strings(before).push(
                marks@[k as int].path@,
            ));
        }
        k = k + 1;
    }
    out
}

/// Most columns shown in Miller view.
pub const MAX_MILLER_COLUMNS: usize = 4;

/// The lexical parent of `p` (`/` for a top-level path, the empty path for
/// a single relative component); `None` for `/` and the empty path.
pub open spec fn lexical_parent(p: Seq<char>) -> Option<Seq<char>> {
    if p.len() == 0 || p == seq!['/'] {
        None
    } else {
        match rfind(p, '/') {
            Some(i) => if i == 0 {
                Some(seq!['/'])
            } else {
                Some(p.take(i))
            },
            None => Some(Seq::empty()),
        }
    }
}

/// `p` and at most `k - 1` of its ancestors, nearest first.
pub open spec fn ancestors(p: Seq<char>, k: nat) -> Seq<Seq<char>>
    decreases k,
{
    if k == 0 {
        Seq::empty()
    } else {
        match lexical_parent(p) {
            Some(q) => seq![p] + ancestors(q, (k - 1) as nat),
            None => seq![p],
        }
    }
}

/// The directories of the Miller columns for `cwd`: its nearest ancestors
/// and itself, outermost first, at most [`MAX_MILLER_COLUMNS`] of them; none
/// before the first directory is opened.
pub open spec fn miller_paths_spec(cwd: Seq<char>) -> Seq<Seq<char>> {
    if cwd.len() == 0 {
        Seq::empty()
    } else {
        ancestors(cwd, MAX_MILLER_COLUMNS as nat).reverse()
    }
}

fn lexical_parent_exec(p: &[char]) -> (r: Option<Vec<char>>)
    ensures
        match r {
            Some(q) => lexical_parent(p@) == Some(q@),
            None => lexical_parent(p@) is None,
        },
        r matches Some(q) ==> q@.len() < p@.len(),
{
    if p.len() == 0 || (p.len() == 1 && p[0] == '/') {
        proof {
            if p@.len() == 1 && p@[0] == '/' {
                assert(p@ =~= seq!['/']);
            }
        }
        return None;
    }
    assert(p@ != seq!['/']);
    proof {
        crate::text::lemma_rfind(p@, '/');
    }
    match rfind_char(p, '/') {
        Some(i) => if i == 0 {
            let mut v: Vec<char> = Vec::new();
            v.push('/');
            assert(v@ =~= seq!['/']);
            Some(v)
        } else {
            let v = slice_to_vec(p, 0, i);
            assert(v@ =~= p@.take(i as int));
            Some(v)
        },
        None => Some(Vec::new()),
    }
}

/// The Miller column directories for `cwd` (see [`miller_paths_spec`]).
pub fn miller_paths(cwd: &str) -> (r: Vec<String>)
    ensures
        crate::xdg::clipboard::strings(r@) == miller_paths_spec(cwd@),
{
    let c = chars_of(cwd);
    let mut found: Vec<Vec<char>> = Vec::new();
    if c.len() == 0 {
        let r: Vec<String> = Vec::new();
        assert(crate::xdg::clipboard::strings(r@) =~= Seq::<Seq<char>>::empty());
        return r;
    }
    let mut cur = c;
    let mut left: usize = MAX_MILLER_COLUMNS;
    loop
        invariant_except_break
            left <= MAX_MILLER_COLUMNS,
            left >= 1,
            crate::text::char_views(found@) + ancestors(cur@, left as nat) == ancestors(cwd@, MAX_MILLER_COLUMNS as nat),
        ensures
            crate::text::char_views(found@) == ancestors(cwd@, MAX_MILLER_COLUMNS as nat),
        decreases left,
    {
        let ghost f0 = crate::text::char_views(found@);
        let next = lexical_parent_exec(cur.as_slice());
        let ghost cv = cur@;
        found.push(cur);
        assert(crate::text::char_views(found@) =~= f0.push(cv));
        match next {
            Some(q) => {
                if left == 1 {
                    assert(ancestors(cv, 1) =~= seq![cv] + ancestors(q@, 0));
                    assert(crate::text::char_views(found@) =~= ancestors(cwd@, MAX_MILLER_COLUMNS as nat));
                    break;
                }
                assert(seq![cv] + ancestors(q@, (left - 1) as nat) == ancestors(cv, left as nat));
                assert(f0 + ancestors(cv, left as nat) =~= f0.push(cv) + ancestors(q@, (left - 1) as nat));
                cur = q;
                left = left - 1;
            },
            None => {
                assert(ancestors(cv, left as nat) =~= seq![cv]);
                assert(crate::text::char_views(found@) =~= ancestors(cwd@, MAX_MILLER_COLUMNS as nat));
                break;
            },
        }
    }
    let ghost all = crate::text::char_views(found@);
    assert(all == ancestors(cwd@, MAX_MILLER_COLUMNS as nat));
    let mut out: Vec<String> = Vec::new();
    let mut k = found.len();
    while k > 0
        invariant
            k <= found@.len(),
            all == crate::text::char_views(found@),
            crate::xdg::clipboard::strings(out@) == all.reverse().take((found@.len() - k) as int),
        decreases k,
    {
        k = k - 1;
        let ghost before = out@;
        assert(all[k as int] == found@[k as int]@);
        assert(all.reverse()[(found@.len() - 1 - k) as int] == all[k as int]);
        let item = string_of(found[k].as_slice());
        out.push(item);
        assert(crate::xdg::clipboard::strings(out@) =~= crate::xdg::clipboard::strings(before).push(
            found@[k as int]@,
        ));
        assert(all.reverse().take((found@.len() - k) as int) =~= all.reverse().take(
            (found@.len() - k - 1) as int,
        ).push(all.reverse()[(found@.len() - 1 - k) as int]));
    }
    assert(all.reverse().take(found@.len() as int) =~= all.reverse());
    out
}

/// Index of the first of `entries` named `name`.
pub open spec fn position_of_name(entries: Seq<Entry>, name: Seq<char>, i: int) -> Option<usize>
    decreases entries.len() - i,
{
    if i < 0 || i >= entries.len() {
        None
    } else if entries[i].name@ == name {
        Some(i as usize)
    } else {
        position_of_name(entries, name, i + 1)
    }
}

/// The entry of a column that leads to the next column's directory `next`:
/// the one named like `next`'s last component.
pub open spec fn leading_entry(entries: Seq<Entry>, next: Seq<char>) -> Option<usize> {
    match file_name_spec(next) {
        Some(n) => position_of_name(entries, n, 0),
        None => None,
    }
}

/// Which entry of `entries` leads into the directory `next`.
pub fn leading_entry_of(entries: &[Entry], next: &str) -> (r: Option<usize>)
    ensures
        r == leading_entry(entries@, next@),
{
    let nc = chars_of(next);
    let name = match file_name_chars(nc.as_slice()) {
        Some(n) => n,
        None => {
            return None;
        },
    };
    let ns = string_of(name.as_slice());
    assert(leading_entry(entries@, next@) == position_of_name(entries@, name@, 0));
    let mut k: usize = 0;
    while k < entries.len()
        invariant
            k <= entries@.len(),
            ns@ == name@,
            position_of_name(entries@, name@, k as int) == position_of_name(entries@, name@, 0),
            leading_entry(entries@, next@) == position_of_name(entries@, name@, 0),
        decreases entries@.len() - k,
    {
        if str_eq(entries[k].name.as_str(), ns.as_str()) {
            assert(position_of_name(entries@, name@, k as int) == Some(k));
            assert(position_of_name(entries@, name@, 0) == Some(k));
            assert(leading_entry(entries@, next@) == Some(k));
            return Some(k);
        }
        k = k + 1;
    }
    None
}

/// The Miller columns for the directories `paths` (outermost first) with
/// their `listings`: each column's selection is the entry leading into the
/// next column; the last column's is `last_selected` (the cursor's entry).
pub fn miller_columns(paths: Vec<String>, listings: Vec<Vec<Entry>>, last_selected: Option<usize>) -> (r: Vec<MillerColumn>)
    requires
        paths@.len() == listings@.len(),
    ensures
        r@.len() == paths@.len(),
        forall|i: int| 0 <= i < r@.len() ==> (#[trigger] r@[i]).path == paths@[i] && r@[i].entries == listings@[i]
            && r@[i].selected == (if i + 1 < paths@.len() {
                leading_entry(listings@[i]@, paths@[i + 1]@)
            } else {
                last_selected
            }),
{
    let n = paths.len();
    let mut sel: Vec<Option<usize>> = Vec::new();
    let mut i: usize = 0;
    while i < n
        invariant
            n == paths@.len(),
            n == listings@.len(),
            i <= n,
            sel@.len() == i,
            forall|j: int| 0 <= j < i ==> #[trigger] sel@[j] == (if j + 1 < n {
                leading_entry(listings@[j]@, paths@[j + 1]@)
            } else {
                last_selected
            }),
        decreases n - i,
    {
        if i + 1 < n {
            sel.push(leading_entry_of(listings[i].as_slice(), paths[i + 1].as_str()));
        } else {
            sel.push(last_selected);
        }
        i = i + 1;
    }
    let ghost p0 = paths@;
    let ghost l0 = listings@;
    let mut paths = paths;
    let mut listings = listings;
    let mut out: Vec<MillerColumn> = Vec::new();
    let mut k: usize = 0;
    while k < n
        invariant
            n == p0.len(),
            n == l0.len(),
            n == sel@.len(),
            k <= n,
            paths@ == p0.skip(k as int),
            listings@ == l0.skip(k as int),
            out@.len() == k,
            forall|j: int| 0 <= j < n ==> #[trigger] sel@[j] == (if j + 1 < n {
                leading_entry(l0[j]@, p0[j + 1]@)
            } else {
                last_selected
            }),
            forall|j: int| 0 <= j < k ==> (#[trigger] out@[j]).path == p0[j] && out@[j].entries == l0[j]
                && out@[j].selected == sel@[j],
        decreases n - k,
    {
        let path = paths.remove(0);
        let entries = listings.remove(0);
        assert(paths@ =~= p0.skip(k + 1));
        assert(listings@ =~= l0.skip(k + 1));
        out.push(MillerColumn { path, entries, selected: sel[k] });
        k = k + 1;
    }
    out
}

impl TabState {
    /// The entry under the cursor, through `visible`, as the Miller view marks it.
    pub open spec fn visible_cursor(&self, visible: Seq<usize>) -> Option<usize> {
        match self.selected {
            Some(v) => if v < visible.len() {
                Some(visible[v as int])
            } else {
                None
            },
            None => None,
        }
    }

    /// Marks the cursor's entry in the last (active directory) Miller column.
    pub fn sync_miller_selection(&mut self, visible: &[usize])
        ensures
            final(self).miller_columns@.len() == old(self).miller_columns@.len(),
            old(self).miller_columns@.len() > 0 ==> final(self).miller_columns@.last().selected
                == old(self).visible_cursor(visible@) && final(self).miller_columns@.last().path
                == old(self).miller_columns@.last().path && final(self).miller_columns@.last().entries
                == old(self).miller_columns@.last().entries && final(self).miller_columns@.drop_last()
                == old(self).miller_columns@.drop_last(),
            old(self).miller_columns@.len() == 0 ==> final(self).miller_columns == old(self).miller_columns,
            final(self).selected == old(self).selected,
            final(self).selected_indices == old(self).selected_indices,
            final(self).entries == old(self).entries,
            final(self).cwd == old(self).cwd,
    {
        let cursor = match self.selected {
            Some(v) => if v < visible.len() {
                Some(visible[v])
            } else {
                None
            },
            None => None,
        };
        let n = self.miller_columns.len();
        if n > 0 {
            let mut last = self.miller_columns.remove(n - 1);
            last.selected = cursor;
            self.miller_columns.push(last);
            assert(self.miller_columns@.drop_last() =~= old(self).miller_columns@.drop_last());
        }
    }
}

/// `acc` with `p` added at the end unless it is empty or already there.
pub open spec fn add_distinct(acc: Seq<Seq<char>>, p: Seq<char>) -> Seq<Seq<char>> {
    if p.len() == 0 || acc.contains(p) {
        acc
    } else {
        acc.push(p)
    }
}

/// The directories of `ps` added one by one to `acc` with [`add_distinct`].
pub open spec fn add_all_distinct(acc: Seq<Seq<char>>, ps: Seq<Seq<char>>) -> Seq<Seq<char>>
    decreases ps.len(),
{
    if ps.len() == 0 {
        acc
    } else {
        add_distinct(add_all_distinct(acc, ps.drop_last()), ps.last())
    }
}

fn push_distinct(acc: &mut Vec<String>, p: &String)
    ensures
        crate::xdg::clipboard::strings(final(acc)@) == add_distinct(crate::xdg::clipboard::strings(old(acc)@), p@),
{
    let ghost a0 = crate::xdg::clipboard::strings(acc@);
    if chars_of(p.as_str()).len() == 0 {
        return;
    }
    let mut k: usize = 0;
    while k < acc.len()
        invariant
            k <= acc@.len(),
            a0 == crate::xdg::clipboard::strings(acc@),
            acc@ == old(acc)@,
            forall|j: int| 0 <= j < k ==> a0[j] != p@,
        decreases acc@.len() - k,
    {
        if str_eq(acc[k].as_str(), p.as_str()) {
            assert(a0[k as int] == p@);
            assert(a0.contains(p@));
            return;
        }
        k = k + 1;
    }
    assert(!a0.contains(p@));
    assert(p@.len() != 0);
    acc.push(p.clone());
    assert(crate::xdg::clipboard::strings(acc@) =~= a0.push(p@));
}

/// The tab directories of `tabs`, in order.
pub open spec fn tab_dirs(tabs: Seq<TabState>) -> Seq<Seq<char>> {
    Seq::new(tabs.len(), |i: int| tabs[i].cwd@)
}

/// The directories of Miller columns.
pub open spec fn column_dirs(cols: Seq<MillerColumn>) -> Seq<Seq<char>> {
    Seq::new(cols.len(), |i: int| cols[i].path@)
}

/// Every directory on screen, each once: the tabs' directories, then (in
/// Miller view) the active tab's column directories.
pub open spec fn view_paths_spec(tabs: Seq<TabState>, active: int, miller: bool) -> Seq<Seq<char>> {
    let t = add_all_distinct(Seq::empty(), tab_dirs(tabs));
    if miller {
        add_all_distinct(t, column_dirs(tabs[active].miller_columns@))
    } else {
        t
    }
}

/// The directories to watch for changes (see [`view_paths_spec`]).
pub fn active_view_paths(tabs: &Tabs, miller: bool) -> (r: Vec<String>)
    requires
        tabs.wf(),
    ensures
        crate::xdg::clipboard::strings(r@) == view_paths_spec(tabs.tabs@, tabs.active as int, miller),
{
    let mut out: Vec<String> = Vec::new();
    let mut i: usize = 0;
    assert(crate::xdg::clipboard::strings(out@) =~= Seq::<Seq<char>>::empty());
    while i < tabs.tabs.len()
        invariant
            i <= tabs.tabs@.len(),
            crate::xdg::clipboard::strings(out@) == add_all_distinct(Seq::empty(), tab_dirs(tabs.tabs@).take(i as int)),
        decreases tabs.tabs@.len() - i,
    {
        assert(tab_dirs(tabs.tabs@).take(i + 1).drop_last() =~= tab_dirs(tabs.tabs@).take(i as int));
        push_distinct(&mut out, &tabs.tabs[i].cwd);
        i = i + 1;
    }
    assert(tab_dirs(tabs.tabs@).take(tabs.tabs@.len() as int) =~= tab_dirs(tabs.tabs@));
    if miller {
        let ghost t = crate::xdg::clipboard::strings(out@);
        let cols = &tabs.tabs[tabs.active].miller_columns;
        let mut j: usize = 0;
        assert(column_dirs(cols@).take(0) =~= Seq::<Seq<char>>::empty());
        while j < cols.len()
            invariant
                j <= cols@.len(),
                crate::xdg::clipboard::strings(out@) == add_all_distinct(t, column_dirs(cols@).take(j as int)),
            decreases cols@.len() - j,
        {
            assert(column_dirs(cols@).take(j + 1).drop_last() =~= column_dirs(cols@).take(j as int));
            push_distinct(&mut out, &cols[j].path);
            j = j + 1;
        }
        assert(column_dirs(cols@).take(cols@.len() as int) =~= column_dirs(cols@));
    }
    out
}

/// What to do about a changed directory.
#[derive(Clone, Copy, Debug, PartialEq, Eq, Structural)]
pub enum FsAction {
    /// Re-read the active tab's directory, keeping filter and cursor.
    RefreshActive,
    /// Re-read the directory of this (inactive) tab.
    ReloadTab(usize),
    /// Rebuild the active tab's Miller columns.
    RebuildMiller,
}

/// Reloads of the inactive tabs among the first `k` showing `p`, in order.
pub open spec fn reload_actions(tabs: Seq<TabState>, active: int, p: Seq<char>, k: int) -> Seq<FsAction>
    decreases k,
{
    if k <= 0 {
        Seq::empty()
    } else if k - 1 != active && tabs[k - 1].cwd@ == p {
        reload_actions(tabs, active, p, k - 1).push(FsAction::ReloadTab((k - 1) as usize))
    } else {
        reload_actions(tabs, active, p, k - 1)
    }
}

/// The actions for the changed directories `changed`, in order, and whether
/// the active directory was refreshed: the active tab's directory is
/// refreshed; other tabs showing a changed directory are reloaded, and in
/// Miller view a changed column directory rebuilds the columns unless the
/// active directory was already refreshed.
pub open spec fn fs_plan(tabs: Seq<TabState>, active: int, miller: bool, changed: Seq<Seq<char>>) -> (Seq<FsAction>, bool)
    decreases changed.len(),
{
    if changed.len() == 0 {
        (Seq::empty(), false)
    } else {
        let (acts, refreshed) = fs_plan(tabs, active, miller, changed.drop_last());
        let p = changed.last();
        if p == tabs[active].cwd@ {
            (acts.push(FsAction::RefreshActive), true)
        } else {
            let reloads = reload_actions(tabs, active, p, tabs.len() as int);
            let rebuild = miller && !refreshed && column_dirs(tabs[active].miller_columns@).contains(p);
            (acts + reloads + (if rebuild { seq![FsAction::RebuildMiller] } else { Seq::empty() }), refreshed)
        }
    }
}

fn in_columns(cols: &Vec<MillerColumn>, p: &str) -> (r: bool)
    ensures
        r == column_dirs(cols@).contains(p@),
{
    let mut k: usize = 0;
    while k < cols.len()
        invariant
            k <= cols@.len(),
            forall|j: int| 0 <= j < k ==> column_dirs(cols@)[j] != p@,
        decreases cols@.len() - k,
    {
        if str_eq(cols[k].path.as_str(), p) {
            assert(column_dirs(cols@)[k as int] == p@);
            return true;
        }
        k = k + 1;
    }
    false
}

/// The actions that the directory changes `changed` call for (see
/// [`fs_plan`]).
pub fn plan_fs_events(tabs: &Tabs, miller: bool, changed: &[String]) -> (r: Vec<FsAction>)
    requires
        tabs.wf(),
    ensures
        r@ == fs_plan(tabs.tabs@, tabs.active as int, miller, crate::xdg::clipboard::strings(changed@)).0,
{
    let ghost cs = crate::xdg::clipboard::strings(changed@);
    let mut out: Vec<FsAction> = Vec::new();
    let mut refreshed = false;
    let active = tabs.active;
    let mut i: usize = 0;
    while i < changed.len()
        invariant
            tabs.wf(),
            active == tabs.active,
            i <= changed@.len(),
            cs == crate::xdg::clipboard::strings(changed@),
            (out@, refreshed) == fs_plan(tabs.tabs@, active as int, miller, cs.take(i as int)),
        decreases changed@.len() - i,
    {
        assert(cs.take(i + 1).drop_last() =~= cs.take(i as int));
        assert(cs.take(i + 1).last() == changed@[i as int]@);
        let p = changed[i].as_str();
        if str_eq(tabs.tabs[active].cwd.as_str(), p) {
            out.push(FsAction::RefreshActive);
            refreshed = true;
        } else {
            let ghost before = out@;
            let mut k: usize = 0;
            while k < tabs.tabs.len()
                invariant
                    tabs.wf(),
                    active == tabs.active,
                    k <= tabs.tabs@.len(),
                    out@ == before + reload_actions(tabs.tabs@, active as int, p@, k as int),
                decreases tabs.tabs@.len() - k,
            {
                if k != active && str_eq(tabs.tabs[k].cwd.as_str(), p) {
                    out.push(FsAction::ReloadTab(k));
                }
                k = k + 1;
            }
            if miller && !refreshed && in_columns(&tabs.tabs[active].miller_columns, p) {
                out.push(FsAction::RebuildMiller);
            }
        }
        i = i + 1;
    }
    assert(cs.take(changed@.len() as int) =~= cs);
    out
}

} // verus!
