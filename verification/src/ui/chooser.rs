//! The file-chooser dialog's state and decisions: the initial save name and
//! filter, which filter is active, what accepting does in each mode, and the
//! one answer the dialog gives. Drawing and checking the disk are the front
//! end's part.
use vstd::prelude::*;
use vstd::utf8::encode_utf8;

use crate::engine::entry::Entry;
use crate::engine::format::{dec, decimal};
use crate::engine::path::{file_name_or_empty, file_name_text, parent_chars, path_parent_spec};
use crate::lantern::chooser::{
    byte_paths, byte_range, filter_eq, filter_view, finish_spec, options_view, rules_view,
    BytePath, Choice, FileChooserMode, FileChooserRequest, FileChooserResponse, FileFilter,
    FilterRule, FilterRuleKind, PromptAppearance, PromptColorScheme,
};
use crate::lantern::config::ThemeMode;
use crate::text::{
    chars_of, contains_char, is_prefix, push_all, push_str, slice_to_vec, starts_with, str_eq,
    string_from_utf8_lossy, string_of, trim, trimmed, utf8_lossy,
};
use crate::xdg::base::{path_join, path_join_spec};

verus! {

/// The view of a filter, if any.
pub open spec fn opt_filter_view(f: Option<FileFilter>) -> Option<
    (Seq<char>, Seq<(crate::lantern::chooser::FilterRuleKind, Seq<char>)>),
> {
    match f {
        Some(x) => Some(filter_view(x)),
        None => None,
    }
}

pub open spec fn ref_filter_view(f: Option<&FileFilter>) -> Option<
    (Seq<char>, Seq<(crate::lantern::chooser::FilterRuleKind, Seq<char>)>),
> {
    match f {
        Some(x) => Some(filter_view(*x)),
        None => None,
    }
}

pub open spec fn filters_view(fs: Seq<FileFilter>) -> Seq<
    (Seq<char>, Seq<(crate::lantern::chooser::FilterRuleKind, Seq<char>)>),
> {
    fs.map_values(|f: FileFilter| filter_view(f))
}

/// The dialog state of one file-chooser request.
pub struct ChooserState {
    pub request: FileChooserRequest,
    pub appearance: Option<PromptAppearance>,
    /// The file name typed for `SaveFile`.
    pub save_name: String,
    pub save_name_focused: bool,
    pub filter_index: usize,
    pub filters: Vec<FileFilter>,
    pub filter_menu_open: bool,
    /// The current answer to each choice, by id.
    pub choices: Vec<(String, String)>,
    pub selected_paths: Vec<BytePath>,
    /// The existing file that a save would replace, while the user is asked.
    pub overwrite_confirm: Option<BytePath>,
    pub result: Option<FileChooserResponse>,
    pub done: bool,
}

/// The save name a request starts with: its suggested name, else the file
/// name of its current file, else empty.
pub open spec fn initial_save_name(r: FileChooserRequest) -> Seq<char> {
    match r.current_name {
        Some(n) => n@,
        None => match r.current_file {
            Some(f) => file_name_or_empty(utf8_lossy(f.0@)),
            None => Seq::empty(),
        },
    }
}

/// The filters offered: the request's, or its current filter alone when it
/// lists none.
pub open spec fn initial_filters(r: FileChooserRequest) -> Seq<FileFilter> {
    if r.filters@.len() == 0 && r.current_filter is Some {
        seq![r.current_filter->0]
    } else {
        r.filters@
    }
}

/// The first position from `i` of a filter equal to `f` (`0` when none).
pub open spec fn filter_position(fs: Seq<FileFilter>, f: FileFilter, i: int) -> int
    decreases fs.len() - i,
{
    if i < 0 || i >= fs.len() {
        0
    } else if filter_view(fs[i]) == filter_view(f) {
        i
    } else {
        filter_position(fs, f, i + 1)
    }
}

/// The filter selected first: the request's current filter among the
/// offered ones, else the first.
pub open spec fn initial_filter_index(r: FileChooserRequest) -> int {
    match r.current_filter {
        Some(cf) => filter_position(initial_filters(r), cf, 0),
        None => 0,
    }
}

/// Each choice with its preselected answer.
pub open spec fn initial_choices(cs: Seq<Choice>) -> Seq<(Seq<char>, Seq<char>)> {
    cs.map_values(|c: Choice| (c.id@, c.selected@))
}

/// The active filter's view.
pub open spec fn active_view(s: ChooserState) -> Option<
    (Seq<char>, Seq<(crate::lantern::chooser::FilterRuleKind, Seq<char>)>),
> {
    if s.filter_index < s.filters@.len() {
        Some(filter_view(s.filters@[s.filter_index as int]))
    } else {
        None
    }
}

/// Everything but the answer is unchanged.
pub open spec fn same_dialog(a: ChooserState, b: ChooserState) -> bool {
    &&& a.request == b.request
    &&& a.appearance == b.appearance
    &&& a.save_name == b.save_name
    &&& a.save_name_focused == b.save_name_focused
    &&& a.filter_index == b.filter_index
    &&& a.filters == b.filters
    &&& a.filter_menu_open == b.filter_menu_open
    &&& a.choices == b.choices
    &&& a.selected_paths == b.selected_paths
}

pub(crate) fn clone_filter(f: &FileFilter) -> (r: FileFilter)
    ensures
        r.label == f.label,
        r.rules@ == f.rules@,
        filter_view(r) == filter_view(*f),
{
    let mut rules: Vec<FilterRule> = Vec::new();
    let mut i: usize = 0;
    while i < f.rules.len()
        invariant
            i <= f.rules@.len(),
            rules@ == f.rules@.take(i as int),
        decreases f.rules.len() - i,
    {
        rules.push(FilterRule { kind: f.rules[i].kind, value: f.rules[i].value.clone() });
        assert(rules@ =~= f.rules@.take(i + 1));
        i = i + 1;
    }
    assert(f.rules@.take(f.rules@.len() as int) =~= f.rules@);
    FileFilter { label: f.label.clone(), rules }
}

fn clone_filters(v: &Vec<FileFilter>) -> (r: Vec<FileFilter>)
    ensures
        filters_view(r@) == filters_view(v@),
{
    let mut out: Vec<FileFilter> = Vec::new();
    let mut i: usize = 0;
    while i < v.len()
        invariant
            i <= v@.len(),
            filters_view(out@) == filters_view(v@.take(i as int)),
        decreases v.len() - i,
    {
        let f = clone_filter(&v[i]);
        let ghost before = out@;
        assert(filters_view(before).len() == before.len());
        assert(before.len() == i);
        out.push(f);
        assert(out@ == before.push(f));
        assert forall|k: int| 0 <= k < i + 1 implies #[trigger] filters_view(out@)[k]
            == filters_view(v@.take(i + 1))[k] by {
            if k < i {
                assert(out@[k] == before[k]);
                assert(filters_view(before)[k] == filters_view(v@.take(i as int))[k]);
            }
        }
        assert(filters_view(out@) =~= filters_view(v@.take(i + 1)));
        i = i + 1;
    }
    assert(v@.take(v@.len() as int) =~= v@);
    out
}

fn clone_choices(v: &Vec<(String, String)>) -> (r: Vec<(String, String)>)
    ensures
        r@ == v@,
{
    let mut out: Vec<(String, String)> = Vec::new();
    let mut i: usize = 0;
    while i < v.len()
        invariant
            i <= v@.len(),
            out@ == v@.take(i as int),
        decreases v.len() - i,
    {
        out.push((v[i].0.clone(), v[i].1.clone()));
        assert(out@ =~= v@.take(i + 1));
        i = i + 1;
    }
    assert(v@.take(v@.len() as int) =~= v@);
    out
}

fn copy_path(p: &BytePath) -> (r: BytePath)
    ensures
        r.0@ == p.0@,
{
    BytePath(byte_range(p.0.as_slice(), 0, p.0.len()))
}

fn position_of(fs: &Vec<FileFilter>, f: &FileFilter) -> (r: usize)
    ensures
        r == filter_position(fs@, *f, 0),
{
    let mut i: usize = 0;
    while i < fs.len()
        invariant
            i <= fs@.len(),
            filter_position(fs@, *f, 0) == filter_position(fs@, *f, i as int),
        decreases fs.len() - i,
    {
        if filter_eq(&fs[i], f) {
            return i;
        }
        i = i + 1;
    }
    0
}

impl ChooserState {
    /// The dialog for `request`: the initial save name, the offered filters
    /// with the request's current one selected, each choice preselected, and
    /// no answer yet.
    pub fn new(request: FileChooserRequest, appearance: Option<PromptAppearance>) -> (s: Self)
        ensures
            s.request == request,
            s.appearance == appearance,
            s.save_name@ == initial_save_name(request),
            filters_view(s.filters@) == filters_view(initial_filters(request)),
            s.filter_index == initial_filter_index(request),
            options_view(s.choices@) == initial_choices(request.choices@),
            !s.save_name_focused,
            !s.filter_menu_open,
            s.selected_paths@.len() == 0,
            s.overwrite_confirm is None,
            s.result is None,
            !s.done,
    {
        let save_name = match &request.current_name {
            Some(n) => n.clone(),
            None => match &request.current_file {
                Some(f) => {
                    let lossy = string_from_utf8_lossy(f.0.as_slice());
                    file_name_text(lossy.as_str())
                },
                None => String::new(),
            },
        };
        let mut filters = clone_filters(&request.filters);
        if filters.len() == 0 {
            match &request.current_filter {
                Some(cf) => {
                    filters.push(clone_filter(cf));
                    assert(filters_view(filters@) =~= filters_view(initial_filters(request)));
                },
                None => {},
            }
        }
        let ghost fv = filters_view(filters@);
        assert(fv == filters_view(initial_filters(request)));
        let filter_index = match &request.current_filter {
            Some(cf) => {
                let k = position_of(&filters, cf);
                proof {
                    let a = filters@;
                    let b = initial_filters(request);
                    assert forall|i: int| 0 <= i < a.len() implies filter_view(#[trigger] a[i])
                        == filter_view(b[i]) by {
                        assert(fv[i] == filters_view(b)[i]);
                    }
                    lemma_position_views(a, b, *cf, 0);
                }
                k
            },
            None => 0,
        };
        let mut choices: Vec<(String, String)> = Vec::new();
        let mut i: usize = 0;
        while i < request.choices.len()
            invariant
                i <= request.choices@.len(),
                options_view(choices@) == initial_choices(request.choices@.take(i as int)),
            decreases request.choices.len() - i,
        {
            let c = &request.choices[i];
            let ghost before = choices@;
            assert(options_view(before).len() == before.len());
            assert(before.len() == i);
            choices.push((c.id.clone(), c.selected.clone()));
            assert forall|k: int| 0 <= k < i + 1 implies #[trigger] options_view(choices@)[k]
                == initial_choices(request.choices@.take(i + 1))[k] by {
                if k < i {
                    assert(choices@[k] == before[k]);
                    assert(options_view(before)[k] == initial_choices(request.choices@.take(i as int))[k]);
                }
            }
            assert(options_view(choices@) =~= initial_choices(request.choices@.take(i + 1)));
            i = i + 1;
        }
        assert(request.choices@.take(request.choices@.len() as int) =~= request.choices@);
        ChooserState {
            request,
            appearance,
            save_name,
            save_name_focused: false,
            filter_index,
            filters,
            filter_menu_open: false,
            choices,
            selected_paths: Vec::new(),
            overwrite_confirm: None,
            result: None,
            done: false,
        }
    }

    /// The selected filter, if its index names one.
    pub fn active_filter(&self) -> (r: Option<FileFilter>)
        ensures
            opt_filter_view(r) == active_view(*self),
    {
        if self.filter_index < self.filters.len() {
            Some(clone_filter(&self.filters[self.filter_index]))
        } else {
            None
        }
    }

    /// Answer with `paths`, the active filter and the choices; an answered
    /// dialog keeps its answer.
    pub fn accept_paths(&mut self, paths: Vec<BytePath>)
        ensures
            old(self).done ==> *final(self) == *old(self),
            !old(self).done ==> {
                &&& final(self).done
                &&& same_dialog(*final(self), *old(self))
                &&& final(self).overwrite_confirm == old(self).overwrite_confirm
                &&& final(self).result matches Some(FileChooserResponse::Selected { paths: p, current_filter: f, choices: c })
                    && p == paths && opt_filter_view(f) == active_view(*old(self)) && c@ == old(self).choices@
            },
    {
        if self.done {
            return;
        }
        let current_filter = self.active_filter();
        let choices = clone_choices(&self.choices);
        self.result = Some(FileChooserResponse::Selected { paths, current_filter, choices });
        self.done = true;
    }

    /// Answer that the user cancelled; an answered dialog keeps its answer.
    pub fn cancel(&mut self)
        ensures
            old(self).done ==> *final(self) == *old(self),
            !old(self).done ==> {
                &&& final(self).done
                &&& same_dialog(*final(self), *old(self))
                &&& final(self).overwrite_confirm == old(self).overwrite_confirm
                &&& final(self).result == Some(FileChooserResponse::Cancelled)
            },
    {
        if self.done {
            return;
        }
        self.result = Some(FileChooserResponse::Cancelled);
        self.done = true;
    }

    /// Escape: dismiss the overwrite question, else close the filter menu,
    /// else cancel the dialog; `true` when the window is to close.
    pub fn escape(&mut self) -> (close: bool)
        ensures
            old(self).overwrite_confirm is Some ==> !close && final(self).overwrite_confirm is None
                && same_dialog(*final(self), *old(self)) && final(self).result == old(self).result
                && final(self).done == old(self).done,
            old(self).overwrite_confirm is None && old(self).filter_menu_open ==> !close
                && !final(self).filter_menu_open && final(self).request == old(self).request
                && final(self).filter_index == old(self).filter_index && final(self).filters
                == old(self).filters && final(self).choices == old(self).choices
                && final(self).result == old(self).result && final(self).done == old(self).done
                && final(self).overwrite_confirm is None,
            old(self).overwrite_confirm is None && !old(self).filter_menu_open ==> close && (
            old(self).done ==> *final(self) == *old(self)) && (!old(self).done ==> final(self).done
                && final(self).result == Some(FileChooserResponse::Cancelled) && same_dialog(
                *final(self),
                *old(self),
            )),
    {
        if self.overwrite_confirm.is_some() {
            self.overwrite_confirm = None;
            false
        } else if self.filter_menu_open {
            self.filter_menu_open = false;
            false
        } else {
            self.cancel();
            true
        }
    }

    /// Open or close the filter menu.
    pub fn toggle_filter_menu(&mut self)
        ensures
            final(self).filter_menu_open == !old(self).filter_menu_open,
            final(self).filter_index == old(self).filter_index,
            final(self).filters == old(self).filters,
            final(self).result == old(self).result,
            final(self).done == old(self).done,
    {
        self.filter_menu_open = !self.filter_menu_open;
    }

    /// Pick the filter at `index` from the menu; gives the filter that now
    /// applies to the listing.
    pub fn pick_filter(&mut self, index: usize) -> (r: Option<FileFilter>)
        ensures
            final(self).filter_index == index,
            !final(self).filter_menu_open,
            final(self).filters == old(self).filters,
            final(self).request == old(self).request,
            final(self).choices == old(self).choices,
            final(self).result == old(self).result,
            final(self).done == old(self).done,
            opt_filter_view(r) == active_view(*final(self)),
    {
        self.filter_index = index;
        self.filter_menu_open = false;
        self.active_filter()
    }
}

/// What accepting the dialog does next.
pub enum AcceptPlan {
    /// Nothing: no usable save name, or nothing chosen.
    Stay,
    /// Open the selected directory in the listing.
    OpenChild(String),
    /// Answer with these paths and close.
    Accept(Vec<BytePath>),
    /// Save to this path, asking first when a file is there.
    SaveTo(BytePath),
    /// Save the request's files into this folder.
    SaveFilesIn(BytePath),
}

/// An [`AcceptPlan`] over plain values.
pub enum PlanView {
    Stay,
    OpenChild(Seq<char>),
    Accept(Seq<Seq<u8>>),
    SaveTo(Seq<u8>),
    SaveFilesIn(Seq<u8>),
}

impl View for AcceptPlan {
    type V = PlanView;

    open spec fn view(&self) -> PlanView {
        match self {
            AcceptPlan::Stay => PlanView::Stay,
            AcceptPlan::OpenChild(n) => PlanView::OpenChild(n@),
            AcceptPlan::Accept(ps) => PlanView::Accept(byte_paths(ps@)),
            AcceptPlan::SaveTo(p) => PlanView::SaveTo(p.0@),
            AcceptPlan::SaveFilesIn(p) => PlanView::SaveFilesIn(p.0@),
        }
    }
}

/// The extension of the first glob rule `*.ext` whose `ext` has no wildcard.
pub open spec fn glob_ext(rules: Seq<(FilterRuleKind, Seq<char>)>, i: int) -> Option<Seq<char>>
    decreases rules.len() - i,
{
    if i < 0 || i >= rules.len() {
        None
    } else if rules[i].0 == FilterRuleKind::Glob && is_prefix("*."@, rules[i].1) && !rules[i].1.skip(
        2,
    ).contains('*') && !rules[i].1.skip(2).contains('?') {
        Some(rules[i].1.skip(2))
    } else {
        glob_ext(rules, i + 1)
    }
}

/// The file name a save uses: the trimmed typed name, refused when empty or
/// holding `/` or NUL; a name without a dot gets the active filter's glob
/// extension.
pub open spec fn save_file_name(
    name: Seq<char>,
    filter: Option<(Seq<char>, Seq<(FilterRuleKind, Seq<char>)>)>,
) -> Option<Seq<char>> {
    let n = trim(name);
    if n.len() == 0 || n.contains('/') || n.contains('\0') {
        None
    } else if !n.contains('.') {
        match filter {
            Some(f) => match glob_ext(f.1, 0) {
                Some(e) => Some(n + seq!['.'] + e),
                None => Some(n),
            },
            None => Some(n),
        }
    } else {
        Some(n)
    }
}

/// The bytes of `name` in the directory `cwd`.
pub open spec fn entry_path(cwd: Seq<char>, name: Seq<char>) -> Seq<u8> {
    encode_utf8(path_join_spec(cwd, name))
}

/// The folder an accept refers to: the selected directory, else `cwd`.
pub open spec fn target_folder(cwd: Seq<char>, sel: Option<(Seq<char>, bool)>) -> Seq<u8> {
    match sel {
        Some((n, true)) => entry_path(cwd, n),
        _ => encode_utf8(cwd),
    }
}

pub open spec fn entry_sel(e: Option<&Entry>) -> Option<(Seq<char>, bool)> {
    match e {
        Some(x) => Some((x.name@, x.navigable)),
        None => None,
    }
}

/// What accepting does, by mode: opening a file accepts the selected file or
/// enters the selected directory; opening a folder accepts the selected
/// directory or the current one; saving a file targets the save name in the
/// current directory; saving files targets the selected directory or the
/// current one.
pub open spec fn accept_plan_spec(
    s: ChooserState,
    cwd: Seq<char>,
    sel: Option<(Seq<char>, bool)>,
) -> PlanView {
    match s.request.mode {
        FileChooserMode::OpenFile => match sel {
            Some((n, true)) => PlanView::OpenChild(n),
            Some((n, false)) => PlanView::Accept(seq![entry_path(cwd, n)]),
            None => if s.selected_paths@.len() > 0 {
                PlanView::Accept(byte_paths(s.selected_paths@))
            } else {
                PlanView::Stay
            },
        },
        FileChooserMode::OpenDirectory => PlanView::Accept(seq![target_folder(cwd, sel)]),
        FileChooserMode::SaveFile => match save_file_name(s.save_name@, active_view(s)) {
            Some(n) => PlanView::SaveTo(entry_path(cwd, n)),
            None => PlanView::Stay,
        },
        FileChooserMode::SaveFiles => PlanView::SaveFilesIn(target_folder(cwd, sel)),
    }
}

/// The dialog answered with exactly these paths.
pub open spec fn answered_with(s: ChooserState, ps: Seq<Seq<u8>>) -> bool {
    s.result matches Some(FileChooserResponse::Selected { paths: p, .. }) && byte_paths(p@) == ps
}

fn path_bytes(cwd: &str, name: &str) -> (r: BytePath)
    ensures
        r.0@ == entry_path(cwd@, name@),
{
    let p = path_join(cwd, name);
    let b = p.as_str().as_bytes();
    BytePath(byte_range(b, 0, b.len()))
}

fn str_bytes(s: &str) -> (r: BytePath)
    ensures
        r.0@ == encode_utf8(s@),
{
    let b = s.as_bytes();
    BytePath(byte_range(b, 0, b.len()))
}

fn glob_ext_exec(rules: &Vec<FilterRule>) -> (r: Option<Vec<char>>)
    ensures
        match r {
            Some(e) => glob_ext(rules_view(rules@), 0) == Some(e@),
            None => glob_ext(rules_view(rules@), 0) is None,
        },
{
    let ghost rv = rules_view(rules@);
    let star_dot = chars_of("*.");
    proof {
        reveal_strlit("*.");
    }
    let mut i: usize = 0;
    while i < rules.len()
        invariant
            i <= rules@.len(),
            rv == rules_view(rules@),
            star_dot@ == "*."@,
            star_dot@.len() == 2,
            glob_ext(rv, 0) == glob_ext(rv, i as int),
        decreases rules.len() - i,
    {
        let rule = &rules[i];
        assert(rv[i as int] == (rule.kind, rule.value@));
        let is_glob = match rule.kind {
            FilterRuleKind::Glob => true,
            FilterRuleKind::Mime => false,
        };
        if is_glob {
            let v = chars_of(rule.value.as_str());
            if starts_with(v.as_slice(), star_dot.as_slice()) {
                let ext = slice_to_vec(v.as_slice(), 2, v.len());
                assert(ext@ =~= rule.value@.skip(2));
                if !contains_char(ext.as_slice(), '*') && !contains_char(ext.as_slice(), '?') {
                    return Some(ext);
                }
            }
        }
        i = i + 1;
    }
    None
}

/// The file name a save uses (see [`save_file_name`]).
pub fn save_name_for(name: &str, filter: Option<&FileFilter>) -> (r: Option<String>)
    ensures
        match r {
            Some(n) => save_file_name(name@, ref_filter_view(filter)) == Some(n@),
            None => save_file_name(name@, ref_filter_view(filter)) is None,
        },
{
    let c = chars_of(name);
    let n = trimmed(c.as_slice());
    if n.len() == 0 || contains_char(n.as_slice(), '/') || contains_char(n.as_slice(), '\0') {
        return None;
    }
    if !contains_char(n.as_slice(), '.') {
        match filter {
            Some(f) => match glob_ext_exec(&f.rules) {
                Some(e) => {
                    let mut out = n;
                    out.push('.');
                    let ghost before = out@;
                    crate::text::push_all(&mut out, e.as_slice());
                    assert(out@ =~= trim(name@) + seq!['.'] + e@);
                    return Some(string_of(out.as_slice()));
                },
                None => {},
            },
            None => {},
        }
    }
    Some(string_of(n.as_slice()))
}

fn folder_for(cwd: &str, selected: Option<&Entry>) -> (r: BytePath)
    ensures
        r.0@ == target_folder(cwd@, entry_sel(selected)),
{
    match selected {
        Some(e) => if e.navigable {
            path_bytes(cwd, e.name.as_str())
        } else {
            str_bytes(cwd)
        },
        None => str_bytes(cwd),
    }
}

impl ChooserState {
    /// What accepting does with `selected` (the selected entry of the
    /// listing of `cwd`): see [`accept_plan_spec`].
    pub fn accept_plan(&self, cwd: &str, selected: Option<&Entry>) -> (r: AcceptPlan)
        ensures
            r@ == accept_plan_spec(*self, cwd@, entry_sel(selected)),
    {
        match self.request.mode {
            FileChooserMode::OpenFile => match selected {
                Some(e) => if e.navigable {
                    AcceptPlan::OpenChild(e.name.clone())
                } else {
                    let mut v: Vec<BytePath> = Vec::new();
                    v.push(path_bytes(cwd, e.name.as_str()));
                    assert(byte_paths(v@) =~= seq![entry_path(cwd@, e.name@)]);
                    AcceptPlan::Accept(v)
                },
                None => if self.selected_paths.len() > 0 {
                    let mut v: Vec<BytePath> = Vec::new();
                    let mut i: usize = 0;
                    while i < self.selected_paths.len()
                        invariant
                            i <= self.selected_paths@.len(),
                            byte_paths(v@) == byte_paths(self.selected_paths@.take(i as int)),
                        decreases self.selected_paths.len() - i,
                    {
                        let ghost before = v@;
                        assert(byte_paths(before).len() == before.len());
                        v.push(copy_path(&self.selected_paths[i]));
                        assert forall|k: int| 0 <= k < i + 1 implies #[trigger] byte_paths(v@)[k]
                            == byte_paths(self.selected_paths@.take(i + 1))[k] by {
                            if k < i {
                                assert(v@[k] == before[k]);
                                assert(byte_paths(before)[k] == byte_paths(
                                    self.selected_paths@.take(i as int),
                                )[k]);
                            }
                        }
                        assert(byte_paths(v@) =~= byte_paths(self.selected_paths@.take(i + 1)));
                        i = i + 1;
                    }
                    assert(self.selected_paths@.take(self.selected_paths@.len() as int)
                        =~= self.selected_paths@);
                    AcceptPlan::Accept(v)
                } else {
                    AcceptPlan::Stay
                },
            },
            FileChooserMode::OpenDirectory => {
                let mut v: Vec<BytePath> = Vec::new();
                v.push(folder_for(cwd, selected));
                assert(byte_paths(v@) =~= seq![target_folder(cwd@, entry_sel(selected))]);
                AcceptPlan::Accept(v)
            },
            FileChooserMode::SaveFile => {
                let filter = self.active_filter();
                let name = match &filter {
                    Some(f) => save_name_for(self.save_name.as_str(), Some(f)),
                    None => save_name_for(self.save_name.as_str(), None),
                };
                match name {
                    Some(n) => AcceptPlan::SaveTo(path_bytes(cwd, n.as_str())),
                    None => AcceptPlan::Stay,
                }
            },
            FileChooserMode::SaveFiles => AcceptPlan::SaveFilesIn(folder_for(cwd, selected)),
        }
    }

    /// Save to `target`: when no file is there (`exists` false) answer with
    /// it and close (`true`); otherwise ask before replacing it.
    pub fn save_to(&mut self, target: BytePath, exists: bool) -> (close: bool)
        ensures
            close == !exists,
            exists ==> final(self).overwrite_confirm == Some(target) && same_dialog(
                *final(self),
                *old(self),
            ) && final(self).result == old(self).result && final(self).done == old(self).done,
            !exists && !old(self).done ==> final(self).done && same_dialog(*final(self), *old(self))
                && answered_with(*final(self), seq![target.0@]),
            !exists && old(self).done ==> *final(self) == *old(self),
    {
        if exists {
            self.overwrite_confirm = Some(target);
            false
        } else {
            let ghost t = target.0@;
            let mut v: Vec<BytePath> = Vec::new();
            v.push(target);
            assert(byte_paths(v@) =~= seq![t]);
            self.accept_paths(v);
            true
        }
    }

    /// Answer the overwrite question: replacing answers with the pending
    /// path and closes (`true`); declining only dismisses the question.
    pub fn resolve_overwrite(&mut self, replace: bool) -> (close: bool)
        ensures
            final(self).overwrite_confirm is None,
            same_dialog(*final(self), *old(self)),
            close == (replace && old(self).overwrite_confirm is Some),
            !close ==> final(self).result == old(self).result && final(self).done == old(self).done,
            close && !old(self).done ==> final(self).done && answered_with(
                *final(self),
                seq![(old(self).overwrite_confirm->0).0@],
            ),
            close && old(self).done ==> final(self).result == old(self).result && final(self).done,
    {
        match self.overwrite_confirm.take() {
            Some(target) => if replace {
                let ghost t = target.0@;
                let mut v: Vec<BytePath> = Vec::new();
                v.push(target);
                assert(byte_paths(v@) =~= seq![t]);
                self.accept_paths(v);
                true
            } else {
                false
            },
            None => false,
        }
    }

    /// Save the request's files into `folder`, each under a name that avoids
    /// the `occupied` paths: answers with the paths, or gives the reason it
    /// cannot (`Save error: ...`).
    pub fn save_files_in(&mut self, folder: BytePath, occupied: &[BytePath]) -> (r: Result<(), String>)
        ensures
            same_dialog(*final(self), *old(self)),
            old(self).request.mode != FileChooserMode::SaveFiles ==> r is Ok && (!old(self).done
                ==> answered_with(*final(self), seq![folder.0@])),
            old(self).request.mode == FileChooserMode::SaveFiles ==> match finish_spec(
                folder.0@,
                byte_paths(old(self).request.files@),
                byte_paths(occupied@),
                old(self).request.files@.len() as int,
            ) {
                Ok(ps) => r is Ok && (!old(self).done ==> answered_with(*final(self), ps)),
                Err(e) => r matches Err(m) && m@ == "Save error: "@ + e && final(self).result
                    == old(self).result && final(self).done == old(self).done,
            },
            r is Ok && old(self).done ==> final(self).result == old(self).result,
            r is Ok ==> final(self).done,
    {
        let ghost f = folder.0@;
        let mut v: Vec<BytePath> = Vec::new();
        v.push(folder);
        assert(v@[0].0@ == f);
        assert(byte_paths(v@) =~= seq![f]);
        match self.request.finish_paths(v, occupied) {
            Ok(paths) => {
                self.accept_paths(paths);
                Ok(())
            },
            Err(e) => {
                let mut m = chars_of("Save error: ");
                push_str(&mut m, e.as_str());
                Err(string_of(m.as_slice()))
            },
        }
    }
}

/// The label of the accept button: the request's, else one for the mode.
pub open spec fn accept_label_spec(r: FileChooserRequest) -> Seq<char> {
    match r.accept_label {
        Some(l) => l@,
        None => match r.mode {
            FileChooserMode::SaveFile | FileChooserMode::SaveFiles => "Save"@,
            FileChooserMode::OpenDirectory => "Select Folder"@,
            FileChooserMode::OpenFile => "Open"@,
        },
    }
}

/// The window title: the request's, else one for the mode.
pub open spec fn window_title_spec(r: FileChooserRequest) -> Seq<char> {
    if r.title@.len() > 0 {
        r.title@
    } else {
        match r.mode {
            FileChooserMode::SaveFile | FileChooserMode::SaveFiles => "Save File"@,
            FileChooserMode::OpenDirectory => "Select Folder"@,
            FileChooserMode::OpenFile => "Open File"@,
        }
    }
}

/// The application id of the window: the requesting application's, else
/// the chooser's own.
pub open spec fn window_app_id_spec(r: FileChooserRequest) -> Seq<char> {
    if r.app_id@.len() > 0 {
        r.app_id@
    } else {
        "io.arca.Chooser"@
    }
}

/// The line under the listing when saving several files.
pub open spec fn save_summary_spec(count: nat) -> Seq<char> {
    if count == 1 {
        "Saving 1 file to selected folder"@
    } else {
        "Saving "@ + dec(count) + " files to selected folder"@
    }
}

/// The answer recorded for choice `id`: the first entry with that id.
pub open spec fn find_answer(cs: Seq<(Seq<char>, Seq<char>)>, id: Seq<char>, i: int) -> Option<Seq<char>>
    decreases cs.len() - i,
{
    if i < 0 || i >= cs.len() {
        None
    } else if cs[i].0 == id {
        Some(cs[i].1)
    } else {
        find_answer(cs, id, i + 1)
    }
}

/// The current answer to a choice: the recorded one, else its preselection.
pub open spec fn choice_value_spec(s: ChooserState, c: Choice) -> Seq<char> {
    match find_answer(options_view(s.choices@), c.id@, 0) {
        Some(v) => v,
        None => c.selected@,
    }
}

/// The first position from `i` of an entry with `id`.
pub open spec fn answer_position(cs: Seq<(Seq<char>, Seq<char>)>, id: Seq<char>, i: int) -> Option<int>
    decreases cs.len() - i,
{
    if i < 0 || i >= cs.len() {
        None
    } else if cs[i].0 == id {
        Some(i)
    } else {
        answer_position(cs, id, i + 1)
    }
}

/// Recording `value` for `id`: the first entry with that id changes, else
/// one is added.
pub open spec fn set_answer(cs: Seq<(Seq<char>, Seq<char>)>, id: Seq<char>, value: Seq<char>) -> Seq<
    (Seq<char>, Seq<char>),
> {
    match answer_position(cs, id, 0) {
        Some(k) => cs.update(k, (id, value)),
        None => cs.push((id, value)),
    }
}

/// The label of option `id` among `opts`, else `id` itself.
pub open spec fn option_label(opts: Seq<(Seq<char>, Seq<char>)>, id: Seq<char>) -> Seq<char> {
    match find_answer(opts, id, 0) {
        Some(l) => l,
        None => id,
    }
}

/// The theme the dialog uses: the compositor's colour scheme when it sent
/// one, else the configured theme.
pub open spec fn dialog_theme_spec(a: Option<PromptAppearance>, configured: ThemeMode) -> ThemeMode {
    match a {
        Some(x) => match x.color_scheme {
            PromptColorScheme::Dark => ThemeMode::Dark,
            PromptColorScheme::Light => ThemeMode::Light,
            PromptColorScheme::System => ThemeMode::System,
        },
        None => configured,
    }
}

/// The text asking before a save replaces `target`.
pub open spec fn overwrite_message_spec(target: Seq<u8>) -> Seq<char> {
    "A file named \""@ + file_name_or_empty(utf8_lossy(target))
        + "\" already exists. Replacing it will overwrite its contents."@
}

/// The accept button's label (see [`accept_label_spec`]).
pub fn accept_label(request: &FileChooserRequest) -> (r: String)
    ensures
        r@ == accept_label_spec(*request),
{
    match &request.accept_label {
        Some(l) => l.clone(),
        None => match request.mode {
            FileChooserMode::SaveFile | FileChooserMode::SaveFiles => "Save".to_string(),
            FileChooserMode::OpenDirectory => "Select Folder".to_string(),
            FileChooserMode::OpenFile => "Open".to_string(),
        },
    }
}

/// The window title (see [`window_title_spec`]).
pub fn window_title(request: &FileChooserRequest) -> (r: String)
    ensures
        r@ == window_title_spec(*request),
{
    if chars_of(request.title.as_str()).len() > 0 {
        request.title.clone()
    } else {
        match request.mode {
            FileChooserMode::SaveFile | FileChooserMode::SaveFiles => "Save File".to_string(),
            FileChooserMode::OpenDirectory => "Select Folder".to_string(),
            FileChooserMode::OpenFile => "Open File".to_string(),
        }
    }
}

/// The window's application id (see [`window_app_id_spec`]).
pub fn window_app_id(request: &FileChooserRequest) -> (r: String)
    ensures
        r@ == window_app_id_spec(*request),
{
    if chars_of(request.app_id.as_str()).len() > 0 {
        request.app_id.clone()
    } else {
        "io.arca.Chooser".to_string()
    }
}

/// The dialog's theme (see [`dialog_theme_spec`]).
pub fn dialog_theme(appearance: Option<PromptAppearance>, configured: ThemeMode) -> (r: ThemeMode)
    ensures
        r == dialog_theme_spec(appearance, configured),
{
    match appearance {
        Some(a) => match a.color_scheme {
            PromptColorScheme::Dark => ThemeMode::Dark,
            PromptColorScheme::Light => ThemeMode::Light,
            PromptColorScheme::System => ThemeMode::System,
        },
        None => configured,
    }
}

/// The question shown before a save replaces `target`.
pub fn overwrite_message(target: &BytePath) -> (r: String)
    ensures
        r@ == overwrite_message_spec(target.0@),
{
    let lossy = string_from_utf8_lossy(target.0.as_slice());
    let name = file_name_text(lossy.as_str());
    let mut m = chars_of("A file named \"");
    push_str(&mut m, name.as_str());
    push_str(&mut m, "\" already exists. Replacing it will overwrite its contents.");
    string_of(m.as_slice())
}

fn find_answer_exec(cs: &Vec<(String, String)>, id: &str) -> (r: Option<usize>)
    ensures
        match r {
            Some(k) => answer_position(options_view(cs@), id@, 0) == Some(k as int) && k < cs@.len()
                && find_answer(options_view(cs@), id@, 0) == Some(cs@[k as int].1@),
            None => answer_position(options_view(cs@), id@, 0) is None && find_answer(
                options_view(cs@),
                id@,
                0,
            ) is None,
        },
{
    let ghost ov = options_view(cs@);
    let mut i: usize = 0;
    while i < cs.len()
        invariant
            i <= cs@.len(),
            ov == options_view(cs@),
            ov.len() == cs@.len(),
            answer_position(ov, id@, 0) == answer_position(ov, id@, i as int),
            find_answer(ov, id@, 0) == find_answer(ov, id@, i as int),
        decreases cs.len() - i,
    {
        assert(ov[i as int] == (cs@[i as int].0@, cs@[i as int].1@));
        if str_eq(cs[i].0.as_str(), id) {
            return Some(i);
        }
        i = i + 1;
    }
    None
}

impl ChooserState {
    /// The line shown when saving several files: how many go to the
    /// selected folder.
    pub fn save_summary(&self) -> (r: String)
        ensures
            r@ == save_summary_spec(self.request.files@.len()),
    {
        let count = self.request.files.len();
        if count == 1 {
            return "Saving 1 file to selected folder".to_string();
        }
        let mut m = chars_of("Saving ");
        let d = decimal(count as u64);
        push_all(&mut m, d.as_slice());
        push_str(&mut m, " files to selected folder");
        string_of(m.as_slice())
    }

    /// The filter button's text: the active filter's label (or `All files`)
    /// with a menu mark; none when no filter is offered.
    pub fn filter_button_label(&self) -> (r: Option<String>)
        ensures
            self.filters@.len() == 0 ==> r is None,
            self.filters@.len() > 0 ==> (r matches Some(t) && t@ == (if self.filter_index
                < self.filters@.len() {
                self.filters@[self.filter_index as int].label@
            } else {
                "All files"@
            }) + " \u{25be}"@),
    {
        if self.filters.len() == 0 {
            return None;
        }
        let mut m: Vec<char> = if self.filter_index < self.filters.len() {
            chars_of(self.filters[self.filter_index].label.as_str())
        } else {
            chars_of("All files")
        };
        push_str(&mut m, " \u{25be}");
        Some(string_of(m.as_slice()))
    }

    /// The current answer to `choice`.
    pub fn choice_value(&self, choice: &Choice) -> (r: String)
        ensures
            r@ == choice_value_spec(*self, *choice),
    {
        match find_answer_exec(&self.choices, choice.id.as_str()) {
            Some(k) => self.choices[k].1.clone(),
            None => choice.selected.clone(),
        }
    }

    /// Record `value` as the answer to choice `id`.
    pub fn set_choice(&mut self, id: &str, value: String)
        ensures
            options_view(final(self).choices@) == set_answer(options_view(old(self).choices@), id@, value@),
            final(self).request == old(self).request,
            final(self).filters == old(self).filters,
            final(self).filter_index == old(self).filter_index,
            final(self).result == old(self).result,
            final(self).done == old(self).done,
    {
        let ghost ov = options_view(self.choices@);
        match find_answer_exec(&self.choices, id) {
            Some(k) => {
                let ghost vv = value@;
                self.choices.set(k, (id.to_string(), value));
                assert(options_view(self.choices@) =~= ov.update(k as int, (id@, vv)));
            },
            None => {
                let ghost vv = value@;
                self.choices.push((id.to_string(), value));
                assert(options_view(self.choices@) =~= ov.push((id@, vv)));
            },
        }
    }

    /// The text of a choice's menu button: its label and the label of the
    /// current option, with a menu mark.
    pub fn choice_button_text(&self, choice: &Choice) -> (r: String)
        ensures
            r@ == choice.label@ + ": "@ + option_label(
                options_view(choice.options@),
                choice_value_spec(*self, *choice),
            ) + " \u{25be}"@,
    {
        let current = self.choice_value(choice);
        let mut m = chars_of(choice.label.as_str());
        push_str(&mut m, ": ");
        match find_answer_exec(&choice.options, current.as_str()) {
            Some(k) => push_str(&mut m, choice.options[k].1.as_str()),
            None => push_str(&mut m, current.as_str()),
        }
        push_str(&mut m, " \u{25be}");
        string_of(m.as_slice())
    }

    /// The dialog's one answer: the recorded one once answered, else
    /// cancelled.
    pub fn into_response(self) -> (r: FileChooserResponse)
        ensures
            r == (if self.done && self.result is Some {
                self.result->0
            } else {
                FileChooserResponse::Cancelled
            }),
    {
        if self.done {
            match self.result {
                Some(r) => r,
                None => FileChooserResponse::Cancelled,
            }
        } else {
            FileChooserResponse::Cancelled
        }
    }
}

/// The directory the dialog opens in: the request's current folder, else
/// the parent of its current file, else `home`.
pub open spec fn start_dir_spec(r: FileChooserRequest, home: Seq<char>) -> Seq<char> {
    match r.current_folder {
        Some(f) => utf8_lossy(f.0@),
        None => match r.current_file {
            Some(f) => match path_parent_spec(utf8_lossy(f.0@)) {
                Some(p) => p,
                None => home,
            },
            None => home,
        },
    }
}

/// The directory the dialog opens in (see [`start_dir_spec`]).
pub fn start_dir(request: &FileChooserRequest, home: &str) -> (r: String)
    ensures
        r@ == start_dir_spec(*request, home@),
{
    match &request.current_folder {
        Some(f) => string_from_utf8_lossy(f.0.as_slice()),
        None => match &request.current_file {
            Some(f) => {
                let lossy = string_from_utf8_lossy(f.0.as_slice());
                let c = chars_of(lossy.as_str());
                match parent_chars(c.as_slice()) {
                    Some(p) => string_of(p.as_slice()),
                    None => home.to_string(),
                }
            },
            None => home.to_string(),
        },
    }
}

proof fn lemma_position_views(a: Seq<FileFilter>, b: Seq<FileFilter>, f: FileFilter, i: int)
    requires
        a.len() == b.len(),
        forall|k: int| 0 <= k < a.len() ==> filter_view(#[trigger] a[k]) == filter_view(b[k]),
    ensures
        filter_position(a, f, i) == filter_position(b, f, i),
    decreases a.len() - i,
{
    if 0 <= i < a.len() {
        assert(filter_view(a[i]) == filter_view(b[i]));
        lemma_position_views(a, b, f, i + 1);
    }
}

} // verus!
