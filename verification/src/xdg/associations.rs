//! XDG MIME application associations (`mimeapps.list`) and the choice of
//! applications for a MIME type.
//!
//! Finding and reading the `mimeapps.list` files and the desktop files is
//! the caller's part.
use vstd::prelude::*;

use crate::lantern::chooser::lower_chars;
use crate::text::{
    ascii_lower_seq, char_views, push_str, split_all, split_chars,
    chars_of, eq_chars, lemma_lexord_antisym, lemma_lexord_trans, lemma_lexord_zero, lex_compare, lexord, lines, lower,
    lowercase, split_lines, split_once, split_once_chars, str_eq, string_of, trim, trimmed,
};
use crate::xdg::base::{path_join, path_join_spec};
use crate::xdg::desktop::{
    clone_entry, clone_strings, list_items, split_list, string_views, DesktopEntry, EntryView,
};

verus! {

broadcast use vstd::seq_lib::group_to_multiset_ensures;

/// The desktop names of `XDG_CURRENT_DESKTOP` pieces: trimmed, blank ones
/// skipped, each ASCII-lower-cased and, when that changes it, also as given.
pub open spec fn desktop_names_from(parts: Seq<Seq<char>>) -> Seq<Seq<char>>
    decreases parts.len(),
{
    if parts.len() == 0 {
        Seq::empty()
    } else {
        let rest = desktop_names_from(parts.drop_last());
        let s = trim(parts.last());
        if s.len() == 0 {
            rest
        } else {
            let l = ascii_lower_seq(s);
            if l != s {
                rest + seq![l, s]
            } else {
                rest.push(l)
            }
        }
    }
}

/// The desktop names in `XDG_CURRENT_DESKTOP` (`:`-separated).
pub open spec fn desktop_names_spec(v: Seq<char>) -> Seq<Seq<char>> {
    desktop_names_from(split_all(v, ':'))
}

/// The desktop names in the value of `XDG_CURRENT_DESKTOP` (see
/// [`desktop_names_spec`]).
pub fn desktop_names(current: &str) -> (r: Vec<String>)
    ensures
        string_views(r@) == desktop_names_spec(current@),
{
    let c = chars_of(current);
    let parts = split_chars(c.as_slice(), ':');
    let ghost pv = char_views(parts@);
    let mut out: Vec<String> = Vec::new();
    let mut i: usize = 0;
    assert(pv.take(0) =~= Seq::<Seq<char>>::empty());
    while i < parts.len()
        invariant
            i <= parts@.len(),
            pv == char_views(parts@),
            pv == split_all(c@, ':'),
            string_views(out@) == desktop_names_from(pv.take(i as int)),
        decreases parts.len() - i,
    {
        assert(pv.take(i + 1).drop_last() =~= pv.take(i as int));
        assert(pv[i as int] == parts@[i as int]@);
        let t = trimmed(parts[i].as_slice());
        if t.len() > 0 {
            let l = lower_chars(t.as_slice());
            let ghost before = string_views(out@);
            if !eq_chars(l.as_slice(), t.as_slice()) {
                out.push(string_of(l.as_slice()));
                out.push(string_of(t.as_slice()));
                assert(string_views(out@) =~= before + seq![l@, t@]);
            } else {
                out.push(string_of(l.as_slice()));
                assert(string_views(out@) =~= before.push(l@));
            }
        }
        i = i + 1;
    }
    assert(pv.take(parts@.len() as int) =~= pv);
    out
}

/// The `mimeapps.list` files of one directory, in order: one per desktop
/// name, then the plain one.
pub open spec fn list_files_in(dir: Seq<char>, desktops: Seq<Seq<char>>) -> Seq<Seq<char>> {
    Seq::new(desktops.len(), |i: int| path_join_spec(dir, desktops[i] + "-mimeapps.list"@)).push(
        path_join_spec(dir, "mimeapps.list"@),
    )
}

/// The `mimeapps.list` files of several directories, in order.
pub open spec fn list_files_of(dirs: Seq<Seq<char>>, desktops: Seq<Seq<char>>) -> Seq<Seq<char>>
    decreases dirs.len(),
{
    if dirs.len() == 0 {
        Seq::empty()
    } else {
        list_files_of(dirs.drop_last(), desktops) + list_files_in(dirs.last(), desktops)
    }
}

/// The directories searched for `mimeapps.list`, in order: the config home,
/// the config dirs, then `applications` in the data home and the data dirs.
pub open spec fn mimeapps_dirs_spec(
    config_home: Seq<char>,
    config_dirs: Seq<Seq<char>>,
    data_home: Seq<char>,
    data_dirs: Seq<Seq<char>>,
) -> Seq<Seq<char>> {
    seq![config_home] + config_dirs + seq![path_join_spec(data_home, "applications"@)] + Seq::new(
        data_dirs.len(),
        |i: int| path_join_spec(data_dirs[i], "applications"@),
    )
}

fn push_list_files(out: &mut Vec<String>, dir: &str, desktops: &Vec<String>)
    ensures
        string_views(final(out)@) == string_views(old(out)@) + list_files_in(
            dir@,
            string_views(desktops@),
        ),
{
    let ghost start = string_views(out@);
    let ghost dv = string_views(desktops@);
    let mut i: usize = 0;
    while i < desktops.len()
        invariant
            i <= desktops@.len(),
            dv == string_views(desktops@),
            string_views(out@) == start + Seq::new(
                i as nat,
                |k: int| path_join_spec(dir@, dv[k] + "-mimeapps.list"@),
            ),
        decreases desktops.len() - i,
    {
        let mut m = chars_of(desktops[i].as_str());
        push_str(&mut m, "-mimeapps.list");
        let name = string_of(m.as_slice());
        let ghost before = string_views(out@);
        out.push(path_join(dir, name.as_str()));
        assert(string_views(out@) =~= before.push(path_join_spec(dir@, dv[i as int] + "-mimeapps.list"@)));
        assert(string_views(out@) =~= start + Seq::new(
            (i + 1) as nat,
            |k: int| path_join_spec(dir@, dv[k] + "-mimeapps.list"@),
        ));
        i = i + 1;
    }
    let ghost before = string_views(out@);
    out.push(path_join(dir, "mimeapps.list"));
    assert(string_views(out@) =~= before.push(path_join_spec(dir@, "mimeapps.list"@)));
    assert(string_views(out@) =~= start + list_files_in(dir@, dv));
}

/// The `mimeapps.list` files to read, in order (see [`list_files_of`] and
/// [`mimeapps_dirs_spec`]).
pub fn mimeapps_files(
    desktops: &Vec<String>,
    config_home: &str,
    config_dirs: &Vec<String>,
    data_home: &str,
    data_dirs: &Vec<String>,
) -> (r: Vec<String>)
    ensures
        string_views(r@) == list_files_of(
            mimeapps_dirs_spec(
                config_home@,
                string_views(config_dirs@),
                data_home@,
                string_views(data_dirs@),
            ),
            string_views(desktops@),
        ),
{
    let mut dirs: Vec<String> = Vec::new();
    dirs.push(config_home.to_string());
    let mut i: usize = 0;
    let ghost cd = string_views(config_dirs@);
    let ghost dd = string_views(data_dirs@);
    while i < config_dirs.len()
        invariant
            i <= config_dirs@.len(),
            cd == string_views(config_dirs@),
            string_views(dirs@) == seq![config_home@] + cd.take(i as int),
        decreases config_dirs.len() - i,
    {
        let ghost before = string_views(dirs@);
        dirs.push(config_dirs[i].clone());
        assert(string_views(dirs@) =~= before.push(cd[i as int]));
        assert(string_views(dirs@) =~= seq![config_home@] + cd.take(i + 1));
        i = i + 1;
    }
    assert(cd.take(config_dirs@.len() as int) =~= cd);
    let ghost before = string_views(dirs@);
    dirs.push(path_join(data_home, "applications"));
    assert(string_views(dirs@) =~= before.push(path_join_spec(data_home@, "applications"@)));
    let ghost mid = string_views(dirs@);
    let mut j: usize = 0;
    while j < data_dirs.len()
        invariant
            j <= data_dirs@.len(),
            dd == string_views(data_dirs@),
            string_views(dirs@) == mid + Seq::new(
                j as nat,
                |k: int| path_join_spec(dd[k], "applications"@),
            ),
        decreases data_dirs.len() - j,
    {
        let ghost b2 = string_views(dirs@);
        dirs.push(path_join(data_dirs[j].as_str(), "applications"));
        assert(string_views(dirs@) =~= b2.push(path_join_spec(dd[j as int], "applications"@)));
        assert(string_views(dirs@) =~= mid + Seq::new(
            (j + 1) as nat,
            |k: int| path_join_spec(dd[k], "applications"@),
        ));
        j = j + 1;
    }
    let ghost all = string_views(dirs@);
    assert(all =~= mimeapps_dirs_spec(config_home@, cd, data_home@, dd));
    let mut out: Vec<String> = Vec::new();
    let mut k: usize = 0;
    let ghost dv = string_views(desktops@);
    assert(all.take(0) =~= Seq::<Seq<char>>::empty());
    while k < dirs.len()
        invariant
            k <= dirs@.len(),
            all == string_views(dirs@),
            dv == string_views(desktops@),
            string_views(out@) == list_files_of(all.take(k as int), dv),
        decreases dirs.len() - k,
    {
        assert(all.take(k + 1).drop_last() =~= all.take(k as int));
        push_list_files(&mut out, dirs[k].as_str(), desktops);
        k = k + 1;
    }
    assert(all.take(dirs@.len() as int) =~= all);
    out
}

/// Associations from `mimeapps.list` files: default and added
/// applications per MIME type, in order, and removed (type, application)
/// pairs.
#[derive(Debug, Clone)]
pub struct MimeAssociations {
    pub defaults: Vec<(String, Vec<String>)>,
    pub added: Vec<(String, Vec<String>)>,
    pub removed: Vec<(String, String)>,
}

pub struct AssocView {
    pub defaults: Seq<(Seq<char>, Seq<Seq<char>>)>,
    pub added: Seq<(Seq<char>, Seq<Seq<char>>)>,
    pub removed: Seq<(Seq<char>, Seq<char>)>,
}

pub open spec fn lists_view(v: Seq<(String, Vec<String>)>) -> Seq<(Seq<char>, Seq<Seq<char>>)> {
    v.map_values(|e: (String, Vec<String>)| (e.0@, string_views(e.1@)))
}

pub open spec fn removed_view(v: Seq<(String, String)>) -> Seq<(Seq<char>, Seq<char>)> {
    v.map_values(|e: (String, String)| (e.0@, e.1@))
}

impl View for MimeAssociations {
    type V = AssocView;

    open spec fn view(&self) -> AssocView {
        AssocView {
            defaults: lists_view(self.defaults@),
            added: lists_view(self.added@),
            removed: removed_view(self.removed@),
        }
    }
}

/// Index of the list for `key`.
pub open spec fn key_index(m: Seq<(Seq<char>, Seq<Seq<char>>)>, key: Seq<char>) -> Option<int>
    decreases m.len(),
{
    if m.len() == 0 {
        None
    } else {
        match key_index(m.drop_last(), key) {
            Some(i) => Some(i),
            None => if m.last().0 == key {
                Some(m.len() - 1)
            } else {
                None
            },
        }
    }
}

/// The list for `key` (empty when there is none).
pub open spec fn list_for(m: Seq<(Seq<char>, Seq<Seq<char>>)>, key: Seq<char>) -> Seq<Seq<char>> {
    match key_index(m, key) {
        Some(i) => m[i].1,
        None => Seq::empty(),
    }
}

/// Add `id` to the list for `key`, unless it is already there.
pub open spec fn add_to(m: Seq<(Seq<char>, Seq<Seq<char>>)>, key: Seq<char>, id: Seq<char>) -> Seq<(Seq<char>, Seq<Seq<char>>)> {
    match key_index(m, key) {
        Some(i) => if m[i].1.contains(id) {
            m
        } else {
            m.update(i, (key, m[i].1.push(id)))
        },
        None => m.push((key, seq![id])),
    }
}

/// The section a `mimeapps.list` header opens: `0` default applications,
/// `1` added associations, `2` removed associations.
pub open spec fn section_of(l: Seq<char>) -> Option<u8> {
    if l == "[Default Applications]"@ {
        Some(0u8)
    } else if l == "[Added Associations]"@ {
        Some(1u8)
    } else if l == "[Removed Associations]"@ {
        Some(2u8)
    } else {
        None
    }
}

pub open spec fn apply_ids(v: AssocView, sec: u8, key: Seq<char>, ids: Seq<Seq<char>>) -> AssocView
    decreases ids.len(),
{
    if ids.len() == 0 {
        v
    } else {
        let w = apply_ids(v, sec, key, ids.drop_last());
        let id = ids.last();
        if sec == 0 {
            AssocView { defaults: add_to(w.defaults, key, id), ..w }
        } else if sec == 1 {
            AssocView { added: add_to(w.added, key, id), ..w }
        } else if w.removed.contains((key, id)) {
            w
        } else {
            AssocView { removed: w.removed.push((key, id)), ..w }
        }
    }
}

/// One line of `mimeapps.list`, with the current section.
pub open spec fn assoc_step(st: (Option<u8>, AssocView), line: Seq<char>) -> (Option<u8>, AssocView) {
    let (sec, v) = st;
    let l = trim(line);
    if l.len() == 0 || l[0] == '#' {
        st
    } else if l[0] == '[' && l.last() == ']' {
        (section_of(l), v)
    } else {
        match sec {
            None => st,
            Some(s) => match split_once(l, '=') {
                None => st,
                Some((m, apps)) => (sec, apply_ids(v, s, trim(m), list_items(apps))),
            },
        }
    }
}

pub open spec fn assoc_lines(st: (Option<u8>, AssocView), ls: Seq<Seq<char>>) -> (Option<u8>, AssocView)
    decreases ls.len(),
{
    if ls.len() == 0 {
        st
    } else {
        assoc_step(assoc_lines(st, ls.drop_last()), ls.last())
    }
}

fn find_key(m: &Vec<(String, Vec<String>)>, key: &str) -> (r: Option<usize>)
    ensures
        match r {
            Some(i) => key_index(lists_view(m@), key@) == Some(i as int) && i < m@.len() && lists_view(m@)[i as int].0
                == key@,
            None => key_index(lists_view(m@), key@) is None,
        },
{
    let ghost mv = lists_view(m@);
    let mut i: usize = 0;
    assert(mv.take(0) =~= Seq::<(Seq<char>, Seq<Seq<char>>)>::empty());
    while i < m.len()
        invariant
            i <= m@.len(),
            mv == lists_view(m@),
            key_index(mv.take(i as int), key@) is None,
        decreases m.len() - i,
    {
        assert(mv.take(i + 1).drop_last() =~= mv.take(i as int));
        if str_eq(m[i].0.as_str(), key) {
            proof {
                lemma_key_index_prefix(mv, key@, i as int);
            }
            return Some(i);
        }
        i = i + 1;
    }
    assert(mv.take(m@.len() as int) =~= mv);
    None
}

proof fn lemma_key_index_prefix(m: Seq<(Seq<char>, Seq<Seq<char>>)>, key: Seq<char>, i: int)
    requires
        0 <= i < m.len(),
        key_index(m.take(i), key) is None,
        m[i].0 == key,
    ensures
        key_index(m, key) == Some(i),
{
    assert(m.take(i + 1).drop_last() =~= m.take(i));
    lemma_key_index_extend(m, key, i + 1, i);
}

proof fn lemma_key_index_extend(m: Seq<(Seq<char>, Seq<Seq<char>>)>, key: Seq<char>, k: int, i: int)
    requires
        0 <= k <= m.len(),
        key_index(m.take(k), key) == Some(i),
    ensures
        key_index(m, key) == Some(i),
    decreases m.len() - k,
{
    if k < m.len() {
        assert(m.take(k + 1).drop_last() =~= m.take(k));
        lemma_key_index_extend(m, key, k + 1, i);
    } else {
        assert(m.take(k) =~= m);
    }
}

fn contains_str(v: &Vec<String>, s: &str) -> (r: bool)
    ensures
        r == string_views(v@).contains(s@),
{
    let ghost vv = string_views(v@);
    let mut i: usize = 0;
    while i < v.len()
        invariant
            i <= v@.len(),
            vv == string_views(v@),
            forall|j: int| 0 <= j < i ==> vv[j] != s@,
        decreases v.len() - i,
    {
        if str_eq(v[i].as_str(), s) {
            assert(vv[i as int] == s@);
            return true;
        }
        i = i + 1;
    }
    false
}

fn add_to_exec(m: &mut Vec<(String, Vec<String>)>, key: &str, id: &str)
    ensures
        lists_view(final(m)@) == add_to(lists_view(old(m)@), key@, id@),
{
    let ghost mv = lists_view(m@);
    match find_key(m, key) {
        Some(i) => {
            if !contains_str(&m[i].1, id) {
                let mut entry = m.remove(i);
                let ghost ev = (entry.0@, string_views(entry.1@));
                assert(ev == mv[i as int]);
                entry.1.push(String::from_str(id));
                let ghost nv = (entry.0@, string_views(entry.1@));
                assert(string_views(entry.1@) =~= mv[i as int].1.push(id@));
                m.insert(i, entry);
                assert(lists_view(m@) =~= mv.update(i as int, nv));
                assert(nv == (key@, mv[i as int].1.push(id@)));
            }
        },
        None => {
            let mut ids: Vec<String> = Vec::new();
            ids.push(String::from_str(id));
            assert(string_views(ids@) =~= seq![id@]);
            m.push((String::from_str(key), ids));
            assert(lists_view(m@) =~= mv.push((key@, seq![id@])));
        },
    }
}

fn contains_pair(v: &Vec<(String, String)>, a: &str, b: &str) -> (r: bool)
    ensures
        r == removed_view(v@).contains((a@, b@)),
{
    let ghost vv = removed_view(v@);
    let mut i: usize = 0;
    while i < v.len()
        invariant
            i <= v@.len(),
            vv == removed_view(v@),
            forall|j: int| 0 <= j < i ==> vv[j] != (a@, b@),
        decreases v.len() - i,
    {
        if str_eq(v[i].0.as_str(), a) && str_eq(v[i].1.as_str(), b) {
            assert(vv[i as int] == (a@, b@));
            return true;
        }
        i = i + 1;
    }
    false
}

impl MimeAssociations {
    pub fn new() -> (r: Self)
        ensures
            r@.defaults.len() == 0,
            r@.added.len() == 0,
            r@.removed.len() == 0,
    {
        let r = MimeAssociations { defaults: Vec::new(), added: Vec::new(), removed: Vec::new() };
        assert(r@.defaults =~= Seq::empty());
        assert(r@.added =~= Seq::empty());
        assert(r@.removed =~= Seq::empty());
        r
    }

    fn apply(&mut self, sec: u8, key: &str, ids: &Vec<String>)
        ensures
            final(self)@ == apply_ids(old(self)@, sec, key@, string_views(ids@)),
    {
        let ghost v0 = self@;
        let ghost iv = string_views(ids@);
        let mut i: usize = 0;
        assert(iv.take(0) =~= Seq::<Seq<char>>::empty());
        while i < ids.len()
            invariant
                i <= ids@.len(),
                iv == string_views(ids@),
                self@ == apply_ids(v0, sec, key@, iv.take(i as int)),
            decreases ids.len() - i,
        {
            assert(iv.take(i + 1).drop_last() =~= iv.take(i as int));
            let id = ids[i].as_str();
            if sec == 0 {
                add_to_exec(&mut self.defaults, key, id);
            } else if sec == 1 {
                add_to_exec(&mut self.added, key, id);
            } else if !contains_pair(&self.removed, key, id) {
                let ghost rv = removed_view(self.removed@);
                self.removed.push((String::from_str(key), String::from_str(id)));
                assert(removed_view(self.removed@) =~= rv.push((key@, id@)));
            }
            i = i + 1;
        }
        assert(iv.take(ids@.len() as int) =~= iv);
    }

    /// Add the associations of one `mimeapps.list` file.
    pub fn parse_content(&mut self, content: &str)
        ensures
            final(self)@ == assoc_lines((None, old(self)@), lines(content@)).1,
    {
        let c = chars_of(content);
        let ls = split_lines(c.as_slice());
        let ghost lv = ls@.map_values(|l: Vec<char>| l@);
        let ghost v0 = self@;
        let mut section: Option<u8> = None;
        let mut k: usize = 0;
        proof {
            reveal_strlit("[Default Applications]");
            reveal_strlit("[Added Associations]");
            reveal_strlit("[Removed Associations]");
        }
        assert(lv.take(0) =~= Seq::<Seq<char>>::empty());
        while k < ls.len()
            invariant
                k <= ls@.len(),
                lv == ls@.map_values(|l: Vec<char>| l@),
                lv == lines(content@),
                assoc_lines((None, v0), lv.take(k as int)) == (section, self@),
            decreases ls.len() - k,
        {
            assert(lv.take(k + 1).drop_last() =~= lv.take(k as int));
            assert(lv.take(k + 1).last() == ls@[k as int]@);
            let l = trimmed(ls[k].as_slice());
            let n = l.len();
            if n == 0 || l[0] == '#' {
            } else if l[0] == '[' && l[n - 1] == ']' {
                let ls_str = string_of(l.as_slice());
                section = if str_eq(ls_str.as_str(), "[Default Applications]") {
                    Some(0)
                } else if str_eq(ls_str.as_str(), "[Added Associations]") {
                    Some(1)
                } else if str_eq(ls_str.as_str(), "[Removed Associations]") {
                    Some(2)
                } else {
                    None
                };
            } else {
                match section {
                    None => {},
                    Some(sec) => {
                        match split_once_chars(l.as_slice(), '=') {
                            None => {},
                            Some((m, apps)) => {
                                let key = string_of(trimmed(m.as_slice()).as_slice());
                                let ids = split_list(apps.as_slice());
                                self.apply(sec, key.as_str(), &ids);
                            },
                        }
                    },
                }
            }
            k = k + 1;
        }
        assert(lv.take(ls@.len() as int) =~= lv);
    }
}

// ---- choosing applications ----

pub open spec fn visible(a: EntryView) -> bool {
    !a.no_display && !a.hidden
}

/// The application registered under `id`.
pub open spec fn app_by_id(apps: Seq<EntryView>, id: Seq<char>) -> Option<EntryView>
    decreases apps.len(),
{
    if apps.len() == 0 {
        None
    } else if apps[0].id == id {
        Some(apps[0])
    } else {
        app_by_id(apps.drop_first(), id)
    }
}

/// The first listed application that is not removed for `mime`, exists
/// and is visible.
pub open spec fn first_listed(ids: Seq<Seq<char>>, apps: Seq<EntryView>, removed: Seq<(Seq<char>, Seq<char>)>, mime: Seq<char>) -> Option<EntryView>
    decreases ids.len(),
{
    if ids.len() == 0 {
        None
    } else {
        let id = ids[0];
        let pick = if removed.contains((mime, id)) {
            None
        } else {
            match app_by_id(apps, id) {
                Some(a) => if visible(a) {
                    Some(a)
                } else {
                    None
                },
                None => None,
            }
        };
        match pick {
            Some(a) => Some(a),
            None => first_listed(ids.drop_first(), apps, removed, mime),
        }
    }
}

/// A visible, not removed application that declares `mime`.
pub open spec fn candidate(a: EntryView, removed: Seq<(Seq<char>, Seq<char>)>, mime: Seq<char>) -> bool {
    visible(a) && !removed.contains((mime, a.id)) && a.mime_types.contains(mime)
}

/// The fallback order: by lower-cased name, then by id.
pub open spec fn app_order(a: EntryView, b: EntryView) -> int {
    let c = lexord(lower(a.name), lower(b.name));
    if c != 0 {
        c
    } else {
        lexord(a.id, b.id)
    }
}

proof fn lemma_app_order(a: EntryView, b: EntryView, c: EntryView)
    ensures
        app_order(a, b) == -app_order(b, a),
        app_order(a, b) <= 0 && app_order(b, c) <= 0 ==> app_order(a, c) <= 0,
{
    let (la, lb, lc) = (lower(a.name), lower(b.name), lower(c.name));
    lemma_lexord_antisym(la, lb);
    lemma_lexord_antisym(lb, lc);
    lemma_lexord_antisym(la, lc);
    lemma_lexord_antisym(a.id, b.id);
    lemma_lexord_antisym(b.id, c.id);
    lemma_lexord_antisym(a.id, c.id);
    if lexord(la, lb) <= 0 && lexord(lb, lc) <= 0 {
        lemma_lexord_trans(la, lb, lc);
    }
    if lexord(lc, lb) <= 0 && lexord(lb, la) <= 0 {
        lemma_lexord_trans(lc, lb, la);
    }
    if lexord(a.id, b.id) <= 0 && lexord(b.id, c.id) <= 0 {
        lemma_lexord_trans(a.id, b.id, c.id);
    }
    if lexord(lc, la) <= 0 && lexord(la, lb) <= 0 {
        lemma_lexord_trans(lc, la, lb);
    }
    if lexord(lb, lc) <= 0 && lexord(lc, la) <= 0 {
        lemma_lexord_trans(lb, lc, la);
    }
}

pub open spec fn entry_views(v: Seq<DesktopEntry>) -> Seq<EntryView> {
    v.map_values(|e: DesktopEntry| e@)
}

/// The default application for `mime`: the first usable one listed under
/// default applications, else under added associations, else the first
/// candidate in the fallback order.
pub open spec fn default_app_spec(mime: Seq<char>, apps: Seq<EntryView>, assoc: AssocView) -> Option<EntryView> {
    match first_listed(list_for(assoc.defaults, mime), apps, assoc.removed, mime) {
        Some(a) => Some(a),
        None => match first_listed(list_for(assoc.added, mime), apps, assoc.removed, mime) {
            Some(a) => Some(a),
            None => None,
        },
    }
}

fn app_by_id_exec(apps: &[DesktopEntry], id: &str) -> (r: Option<usize>)
    ensures
        match r {
            Some(i) => i < apps@.len() && app_by_id(entry_views(apps@), id@) == Some(apps@[i as int]@),
            None => app_by_id(entry_views(apps@), id@) is None,
        },
{
    let ghost av = entry_views(apps@);
    let mut i: usize = 0;
    assert(av.skip(0) =~= av);
    while i < apps.len()
        invariant
            i <= apps@.len(),
            av == entry_views(apps@),
            app_by_id(av.skip(i as int), id@) == app_by_id(av, id@),
        decreases apps.len() - i,
    {
        assert(av.skip(i as int).drop_first() =~= av.skip(i + 1));
        if str_eq(apps[i].id.as_str(), id) {
            return Some(i);
        }
        i = i + 1;
    }
    None
}

fn first_listed_exec(ids: &Vec<String>, apps: &[DesktopEntry], removed: &Vec<(String, String)>, mime: &str) -> (r: Option<usize>)
    ensures
        match r {
            Some(i) => i < apps@.len() && first_listed(string_views(ids@), entry_views(apps@), removed_view(removed@), mime@)
                == Some(apps@[i as int]@),
            None => first_listed(string_views(ids@), entry_views(apps@), removed_view(removed@), mime@) is None,
        },
{
    let ghost iv = string_views(ids@);
    let ghost av = entry_views(apps@);
    let ghost rv = removed_view(removed@);
    let mut i: usize = 0;
    assert(iv.skip(0) =~= iv);
    while i < ids.len()
        invariant
            i <= ids@.len(),
            iv == string_views(ids@),
            av == entry_views(apps@),
            rv == removed_view(removed@),
            first_listed(iv.skip(i as int), av, rv, mime@) == first_listed(iv, av, rv, mime@),
        decreases ids.len() - i,
    {
        assert(iv.skip(i as int).drop_first() =~= iv.skip(i + 1));
        assert(iv.skip(i as int)[0] == ids@[i as int]@);
        let id = ids[i].as_str();
        if !contains_pair(removed, mime, id) {
            match app_by_id_exec(apps, id) {
                Some(k) => {
                    if !apps[k].no_display && !apps[k].hidden {
                        return Some(k);
                    }
                },
                None => {},
            }
        }
        i = i + 1;
    }
    None
}

fn order_exec(a: &DesktopEntry, b: &DesktopEntry) -> (r: i8)
    ensures
        r as int == app_order(a@, b@),
{
    let la = lowercase(chars_of(a.name.as_str()).as_slice());
    let lb = lowercase(chars_of(b.name.as_str()).as_slice());
    let c = lex_compare(la.as_slice(), lb.as_slice());
    if c != 0 {
        c
    } else {
        lex_compare(chars_of(a.id.as_str()).as_slice(), chars_of(b.id.as_str()).as_slice())
    }
}

fn supports(a: &DesktopEntry, mime: &str) -> (r: bool)
    ensures
        r == a@.mime_types.contains(mime@),
{
    let ghost mv = a@.mime_types;
    let mut i: usize = 0;
    while i < a.mime_types.len()
        invariant
            i <= a.mime_types@.len(),
            mv == string_views(a.mime_types@),
            forall|j: int| 0 <= j < i ==> mv[j] != mime@,
        decreases a.mime_types.len() - i,
    {
        if str_eq(a.mime_types[i].as_str(), mime) {
            assert(mv[i as int] == mime@);
            return true;
        }
        i = i + 1;
    }
    false
}

fn is_candidate(a: &DesktopEntry, removed: &Vec<(String, String)>, mime: &str) -> (r: bool)
    ensures
        r == candidate(a@, removed_view(removed@), mime@),
{
    !a.no_display && !a.hidden && !contains_pair(removed, mime, a.id.as_str()) && supports(a, mime)
}

fn lookup_list(m: &Vec<(String, Vec<String>)>, key: &str) -> (r: Vec<String>)
    ensures
        string_views(r@) == list_for(lists_view(m@), key@),
{
    match find_key(m, key) {
        Some(i) => {
            assert(lists_view(m@)[i as int].1 == string_views(m@[i as int].1@));
            clone_strings(&m[i].1)
        },
        None => {
            let v: Vec<String> = Vec::new();
            assert(string_views(v@) =~= Seq::<Seq<char>>::empty());
            v
        },
    }
}

/// The pick of one listed id.
pub open spec fn pick(id: Seq<char>, apps: Seq<EntryView>, removed: Seq<(Seq<char>, Seq<char>)>, mime: Seq<char>) -> Option<EntryView> {
    if removed.contains((mime, id)) {
        None
    } else {
        match app_by_id(apps, id) {
            Some(a) => if visible(a) {
                Some(a)
            } else {
                None
            },
            None => None,
        }
    }
}

proof fn lemma_first_listed_last(ids: Seq<Seq<char>>, apps: Seq<EntryView>, removed: Seq<(Seq<char>, Seq<char>)>, mime: Seq<char>)
    requires
        ids.len() > 0,
    ensures
        first_listed(ids, apps, removed, mime) == match first_listed(ids.drop_last(), apps, removed, mime) {
            Some(a) => Some(a),
            None => pick(ids.last(), apps, removed, mime),
        },
    decreases ids.len(),
{
    if ids.len() == 1 {
        assert(ids.drop_first() =~= Seq::<Seq<char>>::empty());
        assert(ids.drop_last() =~= Seq::<Seq<char>>::empty());
    } else {
        lemma_first_listed_last(ids.drop_first(), apps, removed, mime);
        assert(ids.drop_last().drop_first() =~= ids.drop_first().drop_last());
        assert(ids.drop_last()[0] == ids[0]);
        assert(ids.drop_first().last() == ids.last());
    }
}

proof fn lemma_listed_keeps_front(acc: Seq<EntryView>, ids: Seq<Seq<char>>, apps: Seq<EntryView>, removed: Seq<(Seq<char>, Seq<char>)>, mime: Seq<char>)
    ensures
        listed_from(acc, ids, apps, removed, mime).len() >= acc.len(),
        acc.len() > 0 ==> listed_from(acc, ids, apps, removed, mime)[0] == acc[0],
    decreases ids.len(),
{
    if ids.len() > 0 {
        lemma_listed_keeps_front(acc, ids.drop_last(), apps, removed, mime);
    }
}

proof fn lemma_listed_first(ids: Seq<Seq<char>>, apps: Seq<EntryView>, removed: Seq<(Seq<char>, Seq<char>)>, mime: Seq<char>)
    ensures
        ({
            let l = listed_from(Seq::empty(), ids, apps, removed, mime);
            &&& (l.len() == 0 <==> first_listed(ids, apps, removed, mime) is None)
            &&& (l.len() > 0 ==> first_listed(ids, apps, removed, mime) == Some(l[0]))
        }),
    decreases ids.len(),
{
    if ids.len() > 0 {
        let p = listed_from(Seq::empty(), ids.drop_last(), apps, removed, mime);
        lemma_listed_first(ids.drop_last(), apps, removed, mime);
        lemma_first_listed_last(ids, apps, removed, mime);
        if p.len() == 0 {
            assert(ids_of(p) =~= Seq::<Seq<char>>::empty());
        }
    }
}

proof fn lemma_remaining(apps: Seq<EntryView>, seen: Seq<Seq<char>>, removed: Seq<(Seq<char>, Seq<char>)>, mime: Seq<char>)
    ensures
        forall|x: EntryView| #[trigger] remaining(apps, seen, removed, mime).contains(x) ==> apps.contains(x)
            && candidate(x, removed, mime),
        forall|j: int|
            0 <= j < apps.len() && candidate(apps[j], removed, mime) && !seen.contains(apps[j].id)
                ==> #[trigger] remaining(apps, seen, removed, mime).contains(apps[j]),
    decreases apps.len(),
{
    if apps.len() > 0 {
        let d = apps.drop_last();
        lemma_remaining(d, seen, removed, mime);
        let r0 = remaining(d, seen, removed, mime);
        let r = remaining(apps, seen, removed, mime);
        assert forall|x: EntryView| #[trigger] r.contains(x) implies apps.contains(x) && candidate(x, removed, mime) by {
            if r0.contains(x) {
                let k = choose|k: int| 0 <= k < d.len() && d[k] == x;
                assert(apps[k] == x);
            } else {
                let k = choose|k: int| 0 <= k < r.len() && r[k] == x;
                if k < r0.len() {
                    assert(r[k] == r0[k]);
                }
                assert(apps[apps.len() - 1] == x);
            }
        }
        assert forall|j: int|
            0 <= j < apps.len() && candidate(apps[j], removed, mime) && !seen.contains(apps[j].id)
                implies #[trigger] r.contains(apps[j]) by {
            if j < apps.len() - 1 {
                assert(d[j] == apps[j]);
                assert(r0.contains(d[j]));
                let k = choose|k: int| 0 <= k < r0.len() && r0[k] == d[j];
                assert(r[k] == r0[k]);
            } else {
                assert(r[r.len() - 1] == apps[j]);
            }
        }
    }
}

/// The first application offered for `mime` is its default application (for
/// applications with distinct ids): the listed default or added one, else
/// the first candidate in the fallback order; no application is offered
/// exactly when there is no default.
pub proof fn law_first_app_is_default(mime: Seq<char>, apps: Seq<EntryView>, assoc: AssocView, r: Seq<EntryView>, d: Option<EntryView>)
    requires
        forall|i: int, j: int| 0 <= i < j < apps.len() ==> apps[i].id != apps[j].id,
        apps_for_spec(mime, apps, assoc, r),
        default_holds(mime, apps, assoc, d),
    ensures
        r.len() > 0 ==> d == Some(r[0]),
        r.len() == 0 ==> d is None,
{
    let rm = assoc.removed;
    let defs = list_for(assoc.defaults, mime);
    let adds = list_for(assoc.added, mime);
    let dl = listed_from(Seq::empty(), defs, apps, rm, mime);
    let l = listed_from(dl, adds, apps, rm, mime);
    let rest = remaining(apps, ids_of(l), rm, mime);
    lemma_listed_first(defs, apps, rm, mime);
    lemma_listed_first(adds, apps, rm, mime);
    lemma_listed_keeps_front(dl, adds, apps, rm, mime);
    if dl.len() > 0 {
        assert(r.take(l.len() as int)[0] == l[0]);
    } else {
        assert(dl =~= Seq::<EntryView>::empty());
        if l.len() > 0 {
            assert(r.take(l.len() as int)[0] == l[0]);
        } else {
            assert(default_app_spec(mime, apps, assoc) is None);
            assert(ids_of(l) =~= Seq::<Seq<char>>::empty());
            lemma_remaining(apps, ids_of(l), rm, mime);
            let tail = r.skip(0);
            assert(tail =~= r);
            match d {
                Some(e) => {
                    let j = choose|j: int| 0 <= j < apps.len() && apps[j] == e;
                    assert(rest.contains(apps[j]));
                    assert(rest.to_multiset().contains(e));
                    assert(r.to_multiset().contains(e));
                    assert(r.contains(e));
                    let k = choose|k: int| 0 <= k < r.len() && r[k] == e;
                    assert(r.len() > 0);
                    assert(r.to_multiset().contains(r[0]));
                    assert(rest.to_multiset().contains(r[0]));
                    assert(rest.contains(r[0]));
                    let x = r[0];
                    assert(apps.contains(x) && candidate(x, rm, mime));
                    let jx = choose|jx: int| 0 <= jx < apps.len() && apps[jx] == x;
                    assert(app_order(e, apps[jx]) <= 0);
                    if k > 0 {
                        assert(app_order(r[0], r[k]) <= 0);
                    } else {
                        lemma_lexord_refl_views(x);
                    }
                    lemma_app_order(x, e, e);
                    crate::text::lemma_lexord_antisym(lower(x.name), lower(e.name));
                    crate::text::lemma_lexord_antisym(x.id, e.id);
                    if lexord(lower(x.name), lower(e.name)) == 0 {
                        lemma_lexord_zero(x.id, e.id);
                    }
                    assert(x.id == e.id);
                    if jx != j {
                        if jx < j {
                            assert(apps[jx].id != apps[j].id);
                        } else {
                            assert(apps[j].id != apps[jx].id);
                        }
                    }
                    assert(x == e);
                },
                None => {
                    if rest.len() > 0 {
                        assert(rest.contains(rest[0]));
                        let y = rest[0];
                        assert(apps.contains(y) && candidate(y, rm, mime));
                        let jy = choose|jy: int| 0 <= jy < apps.len() && apps[jy] == y;
                        assert(!candidate(apps[jy], rm, mime));
                    }
                    assert(r.len() == 0);
                },
            }
        }
    }
}

proof fn lemma_lexord_refl_views(x: EntryView)
    ensures
        app_order(x, x) == 0,
{
    crate::text::lemma_lexord_refl(lower(x.name));
    crate::text::lemma_lexord_refl(x.id);
}

/// What the default application for `mime` is: the listed default or added
/// one when there is one, else a candidate that no other candidate precedes
/// in the fallback order, else none (when there is no candidate).
pub open spec fn default_holds(mime: Seq<char>, av: Seq<EntryView>, assoc: AssocView, r: Option<EntryView>) -> bool {
    match default_app_spec(mime, av, assoc) {
        Some(a) => r == Some(a),
        None => match r {
            Some(e) => candidate(e, assoc.removed, mime) && av.contains(e) && forall|j: int|
                0 <= j < av.len() && candidate(av[j], assoc.removed, mime) ==> app_order(
                    e,
                    #[trigger] av[j],
                ) <= 0,
            None => forall|j: int| 0 <= j < av.len() ==> !candidate(#[trigger] av[j], assoc.removed, mime),
        },
    }
}

/// The default application for `mime` among `apps` (keyed by their ids),
/// given the associations.
pub fn resolve_default_application(mime_type: &str, apps: &[DesktopEntry], associations: &MimeAssociations) -> (r: Option<DesktopEntry>)
    ensures
        default_holds(
            mime_type@,
            entry_views(apps@),
            associations@,
            match r {
                Some(e) => Some(e@),
                None => None,
            },
        ),
{
    let ghost av = entry_views(apps@);
    let defaults = lookup_list(&associations.defaults, mime_type);
    match first_listed_exec(&defaults, apps, &associations.removed, mime_type) {
        Some(i) => {
            return Some(clone_entry(&apps[i]));
        },
        None => {},
    }
    let added = lookup_list(&associations.added, mime_type);
    match first_listed_exec(&added, apps, &associations.removed, mime_type) {
        Some(i) => {
            return Some(clone_entry(&apps[i]));
        },
        None => {},
    }
    let mut best: Option<usize> = None;
    let mut i: usize = 0;
    while i < apps.len()
        invariant
            i <= apps@.len(),
            av == entry_views(apps@),
            match best {
                Some(b) => b < i && candidate(av[b as int], associations@.removed, mime_type@) && forall|j: int|
                    0 <= j < i && candidate(av[j], associations@.removed, mime_type@) ==> app_order(
                        av[b as int],
                        #[trigger] av[j],
                    ) <= 0,
                None => forall|j: int| 0 <= j < i ==> !candidate(#[trigger] av[j], associations@.removed, mime_type@),
            },
        decreases apps.len() - i,
    {
        if is_candidate(&apps[i], &associations.removed, mime_type) {
            match best {
                None => {
                    proof {
                        lemma_app_order(av[i as int], av[i as int], av[i as int]);
                    }
                    best = Some(i);
                },
                Some(b) => {
                    if order_exec(&apps[i], &apps[b]) < 0 {
                        proof {
                            lemma_app_order(av[i as int], av[b as int], av[i as int]);
                            assert forall|j: int| 0 <= j < i + 1 && candidate(av[j], associations@.removed, mime_type@) implies app_order(
                                av[i as int],
                                #[trigger] av[j],
                            ) <= 0 by {
                                lemma_app_order(av[i as int], av[b as int], av[j]);
                                lemma_app_order(av[i as int], av[i as int], av[i as int]);
                            }
                        }
                        best = Some(i);
                    } else {
                        proof {
                            lemma_app_order(av[b as int], av[i as int], av[b as int]);
                        }
                    }
                },
            }
        }
        i = i + 1;
    }
    match best {
        Some(b) => {
            assert(av.contains(av[b as int]));
            Some(clone_entry(&apps[b]))
        },
        None => None,
    }
}

pub open spec fn ids_of(v: Seq<EntryView>) -> Seq<Seq<char>> {
    v.map_values(|e: EntryView| e.id)
}

/// The usable listed applications, each once, after those in `acc`.
pub open spec fn listed_from(acc: Seq<EntryView>, ids: Seq<Seq<char>>, apps: Seq<EntryView>, removed: Seq<(Seq<char>, Seq<char>)>, mime: Seq<char>) -> Seq<EntryView>
    decreases ids.len(),
{
    if ids.len() == 0 {
        acc
    } else {
        let prev = listed_from(acc, ids.drop_last(), apps, removed, mime);
        let id = ids.last();
        if removed.contains((mime, id)) {
            prev
        } else {
            match app_by_id(apps, id) {
                Some(a) => if visible(a) && !ids_of(prev).contains(a.id) {
                    prev.push(a)
                } else {
                    prev
                },
                None => prev,
            }
        }
    }
}

/// The candidates not already listed, in the order of `apps`.
pub open spec fn remaining(apps: Seq<EntryView>, seen: Seq<Seq<char>>, removed: Seq<(Seq<char>, Seq<char>)>, mime: Seq<char>) -> Seq<EntryView>
    decreases apps.len(),
{
    if apps.len() == 0 {
        Seq::empty()
    } else {
        let rest = remaining(apps.drop_last(), seen, removed, mime);
        let a = apps.last();
        if candidate(a, removed, mime) && !seen.contains(a.id) {
            rest.push(a)
        } else {
            rest
        }
    }
}

pub open spec fn sorted_apps(s: Seq<EntryView>) -> bool {
    forall|i: int, j: int| 0 <= i < j < s.len() ==> app_order(#[trigger] s[i], #[trigger] s[j]) <= 0
}

/// The applications for `mime`: the usable defaults, then the usable added
/// associations (each once), then the other candidates in the fallback
/// order.
pub open spec fn apps_for_spec(mime: Seq<char>, apps: Seq<EntryView>, assoc: AssocView, r: Seq<EntryView>) -> bool {
    let d = listed_from(Seq::empty(), list_for(assoc.defaults, mime), apps, assoc.removed, mime);
    let l = listed_from(d, list_for(assoc.added, mime), apps, assoc.removed, mime);
    let rest = remaining(apps, ids_of(l), assoc.removed, mime);
    &&& r.len() == l.len() + rest.len()
    &&& r.take(l.len() as int) == l
    &&& r.skip(l.len() as int).to_multiset() == rest.to_multiset()
    &&& sorted_apps(r.skip(l.len() as int))
}

fn seen_id(v: &Vec<DesktopEntry>, id: &str) -> (r: bool)
    ensures
        r == ids_of(entry_views(v@)).contains(id@),
{
    let ghost iv = ids_of(entry_views(v@));
    let mut i: usize = 0;
    while i < v.len()
        invariant
            i <= v@.len(),
            iv == ids_of(entry_views(v@)),
            forall|j: int| 0 <= j < i ==> iv[j] != id@,
        decreases v.len() - i,
    {
        if str_eq(v[i].id.as_str(), id) {
            assert(iv[i as int] == id@);
            return true;
        }
        i = i + 1;
    }
    false
}

fn add_listed(out: &mut Vec<DesktopEntry>, ids: &Vec<String>, apps: &[DesktopEntry], removed: &Vec<(String, String)>, mime: &str)
    ensures
        entry_views(final(out)@) == listed_from(entry_views(old(out)@), string_views(ids@), entry_views(apps@), removed_view(removed@), mime@),
{
    let ghost iv = string_views(ids@);
    let ghost av = entry_views(apps@);
    let ghost rv = removed_view(removed@);
    let ghost o = entry_views(out@);
    let mut i: usize = 0;
    assert(iv.take(0) =~= Seq::<Seq<char>>::empty());
    while i < ids.len()
        invariant
            i <= ids@.len(),
            iv == string_views(ids@),
            av == entry_views(apps@),
            rv == removed_view(removed@),
            entry_views(out@) == listed_from(o, iv.take(i as int), av, rv, mime@),
        decreases ids.len() - i,
    {
        assert(iv.take(i + 1).drop_last() =~= iv.take(i as int));
        assert(iv.take(i + 1).last() == ids@[i as int]@);
        let id = ids[i].as_str();
        if !contains_pair(removed, mime, id) {
            match app_by_id_exec(apps, id) {
                Some(k) => {
                    if !apps[k].no_display && !apps[k].hidden && !seen_id(out, apps[k].id.as_str()) {
                        let ghost prev = entry_views(out@);
                        let e = clone_entry(&apps[k]);
                        out.push(e);
                        assert(entry_views(out@) =~= prev.push(av[k as int]));
                    }
                },
                None => {},
            }
        }
        i = i + 1;
    }
    assert(iv.take(ids@.len() as int) =~= iv);
}

fn sort_apps(v: Vec<DesktopEntry>) -> (r: Vec<DesktopEntry>)
    ensures
        entry_views(r@).to_multiset() == entry_views(v@).to_multiset(),
        r@.len() == v@.len(),
        sorted_apps(entry_views(r@)),
{
    let mut src = v;
    let ghost orig = entry_views(src@);
    let mut out: Vec<DesktopEntry> = Vec::new();
    proof {
        vstd::seq_lib::lemma_multiset_commutative(entry_views(out@), orig);
        assert(entry_views(out@) + orig =~= orig);
    }
    while src.len() > 0
        invariant
            (entry_views(out@) + entry_views(src@)).to_multiset() == orig.to_multiset(),
            out@.len() + src@.len() == orig.len(),
            sorted_apps(entry_views(out@)),
        decreases src.len(),
    {
        let ghost sv0 = entry_views(src@);
        let ghost before = entry_views(out@);
        let x = src.remove(0);
        let ghost xv = x@;
        assert(sv0[0] == xv);
        let mut p = out.len();
        while p > 0 && order_exec(&x, &out[p - 1]) < 0
            invariant
                p <= out@.len(),
                before == entry_views(out@),
                xv == x@,
                forall|k: int| p <= k < out@.len() ==> app_order(xv, #[trigger] before[k]) < 0,
            decreases p,
        {
            p = p - 1;
        }
        proof {
            if p > 0 {
                lemma_app_order(xv, before[p - 1], xv);
                assert forall|i: int| 0 <= i < p implies app_order(#[trigger] before[i], xv) <= 0 by {
                    lemma_app_order(before[i], before[p - 1], xv);
                }
            }
        }
        out.insert(p, x);
        proof {
            let s = entry_views(out@);
            assert(s =~= before.insert(p as int, xv));
            assert forall|i: int, j: int| 0 <= i < j < s.len() implies app_order(#[trigger] s[i], #[trigger] s[j]) <= 0 by {
                if j < p {
                    assert(s[i] == before[i] && s[j] == before[j]);
                } else if j == p {
                    assert(s[i] == before[i]);
                } else if i == p {
                    assert(s[j] == before[j - 1]);
                    lemma_app_order(xv, before[j - 1], xv);
                } else if i < p {
                    assert(s[i] == before[i] && s[j] == before[j - 1]);
                    lemma_app_order(xv, before[j - 1], xv);
                    lemma_app_order(before[i], xv, before[j - 1]);
                } else {
                    assert(s[i] == before[i - 1] && s[j] == before[j - 1]);
                }
            }
            let sv = entry_views(src@);
            assert(sv =~= sv0.remove(0));
            broadcast use vstd::multiset::group_multiset_axioms;
            vstd::seq_lib::lemma_multiset_commutative(s, sv);
            vstd::seq_lib::lemma_multiset_commutative(before, sv0);
            assert(sv0.to_multiset().contains(xv));
            assert(sv.to_multiset() == sv0.to_multiset().remove(xv));
            assert(s.to_multiset() == before.to_multiset().insert(xv));
            assert(s.to_multiset().add(sv.to_multiset()) =~= before.to_multiset().add(sv0.to_multiset()));
        }
    }
    proof {
        assert(entry_views(src@) =~= Seq::<EntryView>::empty());
        assert(entry_views(out@) + entry_views(src@) =~= entry_views(out@));
    }
    out
}

/// All applications that can open `mime_type`, in preference order.
pub fn resolve_applications_for_mime(mime_type: &str, apps: &[DesktopEntry], associations: &MimeAssociations) -> (r: Vec<DesktopEntry>)
    ensures
        apps_for_spec(mime_type@, entry_views(apps@), associations@, entry_views(r@)),
{
    let ghost av = entry_views(apps@);
    let mut out: Vec<DesktopEntry> = Vec::new();
    assert(entry_views(out@) =~= Seq::<EntryView>::empty());
    let defaults = lookup_list(&associations.defaults, mime_type);
    add_listed(&mut out, &defaults, apps, &associations.removed, mime_type);
    let added = lookup_list(&associations.added, mime_type);
    add_listed(&mut out, &added, apps, &associations.removed, mime_type);
    let ghost l = entry_views(out@);
    let mut rest: Vec<DesktopEntry> = Vec::new();
    let mut i: usize = 0;
    assert(av.take(0) =~= Seq::<EntryView>::empty());
    while i < apps.len()
        invariant
            i <= apps@.len(),
            av == entry_views(apps@),
            l == entry_views(out@),
            entry_views(rest@) == remaining(av.take(i as int), ids_of(l), associations@.removed, mime_type@),
        decreases apps.len() - i,
    {
        assert(av.take(i + 1).drop_last() =~= av.take(i as int));
        assert(av.take(i + 1).last() == apps@[i as int]@);
        if is_candidate(&apps[i], &associations.removed, mime_type) && !seen_id(&out, apps[i].id.as_str()) {
            let ghost prev = entry_views(rest@);
            rest.push(clone_entry(&apps[i]));
            assert(entry_views(rest@) =~= prev.push(av[i as int]));
        }
        i = i + 1;
    }
    assert(av.take(apps@.len() as int) =~= av);
    let ghost rv = entry_views(rest@);
    let sorted = sort_apps(rest);
    let ghost sv = entry_views(sorted@);
    let mut k: usize = 0;
    while k < sorted.len()
        invariant
            k <= sorted@.len(),
            sv == entry_views(sorted@),
            entry_views(out@) == l + sv.take(k as int),
        decreases sorted.len() - k,
    {
        let ghost prev = entry_views(out@);
        let e = clone_entry(&sorted[k]);
        assert(e@ == sv[k as int]);
        out.push(e);
        assert(entry_views(out@) =~= prev.push(sv[k as int]));
        assert(sv.take(k + 1) =~= sv.take(k as int).push(sv[k as int]));
        assert(entry_views(out@) =~= l + sv.take(k + 1));
        k = k + 1;
    }
    assert(sv.take(sorted@.len() as int) =~= sv);
    proof {
        let r = entry_views(out@);
        assert(r.take(l.len() as int) =~= l);
        assert(r.skip(l.len() as int) =~= sv);
    }
    out
}


/// No two of `s` share an id.
pub open spec fn distinct_ids(s: Seq<EntryView>) -> bool {
    forall|i: int, j: int| 0 <= i < j < s.len() ==> s[i].id != s[j].id
}

/// `a` is registered among `apps`, shown, and not removed for `mime`.
pub open spec fn usable_for(a: EntryView, apps: Seq<EntryView>, removed: Seq<(Seq<char>, Seq<char>)>, mime: Seq<char>) -> bool {
    apps.contains(a) && visible(a) && !removed.contains((mime, a.id))
}

proof fn lemma_app_by_id(apps: Seq<EntryView>, id: Seq<char>)
    ensures
        app_by_id(apps, id) matches Some(a) ==> apps.contains(a) && a.id == id,
    decreases apps.len(),
{
    if apps.len() > 0 && apps[0].id != id {
        lemma_app_by_id(apps.drop_first(), id);
        if app_by_id(apps, id) is Some {
            let a = app_by_id(apps, id)->0;
            let k = choose|k: int| 0 <= k < apps.drop_first().len() && apps.drop_first()[k] == a;
            assert(apps[k + 1] == a);
        }
    } else if apps.len() > 0 {
        assert(apps[0] == apps[0]);
    }
}

proof fn lemma_listed_usable(acc: Seq<EntryView>, ids: Seq<Seq<char>>, apps: Seq<EntryView>, removed: Seq<(Seq<char>, Seq<char>)>, mime: Seq<char>)
    requires
        distinct_ids(acc),
        forall|k: int| 0 <= k < acc.len() ==> usable_for(#[trigger] acc[k], apps, removed, mime),
    ensures
        distinct_ids(listed_from(acc, ids, apps, removed, mime)),
        forall|k: int|
            0 <= k < listed_from(acc, ids, apps, removed, mime).len() ==> usable_for(
                #[trigger] listed_from(acc, ids, apps, removed, mime)[k],
                apps,
                removed,
                mime,
            ),
    decreases ids.len(),
{
    if ids.len() > 0 {
        let prev = listed_from(acc, ids.drop_last(), apps, removed, mime);
        lemma_listed_usable(acc, ids.drop_last(), apps, removed, mime);
        let id = ids.last();
        lemma_app_by_id(apps, id);
        if !removed.contains((mime, id)) {
            if let Some(a) = app_by_id(apps, id) {
                if visible(a) && !ids_of(prev).contains(a.id) {
                    let l = prev.push(a);
                    assert forall|i: int| 0 <= i < prev.len() implies prev[i].id != a.id by {
                        assert(ids_of(prev)[i] == prev[i].id);
                    }
                    assert forall|k: int| 0 <= k < l.len() implies usable_for(#[trigger] l[k], apps, removed, mime) by {
                        if k < prev.len() {
                            assert(l[k] == prev[k]);
                        }
                    }
                    assert(distinct_ids(l));
                }
            }
        }
    }
}

proof fn lemma_remaining_distinct(apps: Seq<EntryView>, seen: Seq<Seq<char>>, removed: Seq<(Seq<char>, Seq<char>)>, mime: Seq<char>)
    requires
        distinct_ids(apps),
    ensures
        distinct_ids(remaining(apps, seen, removed, mime)),
        forall|k: int|
            0 <= k < remaining(apps, seen, removed, mime).len() ==> !seen.contains(
                #[trigger] remaining(apps, seen, removed, mime)[k].id,
            ),
    decreases apps.len(),
{
    if apps.len() > 0 {
        let d = apps.drop_last();
        assert(distinct_ids(d));
        lemma_remaining_distinct(d, seen, removed, mime);
        lemma_remaining(d, seen, removed, mime);
        let r0 = remaining(d, seen, removed, mime);
        let a = apps.last();
        if candidate(a, removed, mime) && !seen.contains(a.id) {
            let r = r0.push(a);
            assert forall|i: int| 0 <= i < r0.len() implies r0[i].id != a.id by {
                assert(r0.contains(r0[i]));
                let k = choose|k: int| 0 <= k < d.len() && d[k] == r0[i];
                assert(apps[k] == d[k]);
            }
            assert forall|k: int| 0 <= k < r.len() implies !seen.contains(#[trigger] r[k].id) by {
                if k < r0.len() {
                    assert(r[k] == r0[k]);
                }
            }
            assert(distinct_ids(r));
        }
    }
}

/// What [`resolve_applications_for_mime`] offers: each application at most
/// once, and only applications that are registered, shown, and not removed
/// for the type.
pub proof fn law_applications_usable(mime: Seq<char>, apps: Seq<EntryView>, assoc: AssocView, r: Seq<EntryView>)
    requires
        distinct_ids(apps),
        apps_for_spec(mime, apps, assoc, r),
    ensures
        distinct_ids(r),
        forall|k: int| 0 <= k < r.len() ==> usable_for(#[trigger] r[k], apps, assoc.removed, mime),
{
    broadcast use vstd::multiset::group_multiset_axioms;

    let rm = assoc.removed;
    let dl = listed_from(Seq::empty(), list_for(assoc.defaults, mime), apps, rm, mime);
    let l = listed_from(dl, list_for(assoc.added, mime), apps, rm, mime);
    let rest = remaining(apps, ids_of(l), rm, mime);
    lemma_listed_usable(Seq::empty(), list_for(assoc.defaults, mime), apps, rm, mime);
    lemma_listed_usable(dl, list_for(assoc.added, mime), apps, rm, mime);
    lemma_remaining(apps, ids_of(l), rm, mime);
    lemma_remaining_distinct(apps, ids_of(l), rm, mime);
    let n = l.len() as int;
    let tail = r.skip(n);
    assert forall|k: int| 0 <= k < tail.len() implies #[trigger] rest.contains(tail[k]) by {
        assert(tail.to_multiset().contains(tail[k]));
        assert(rest.to_multiset().contains(tail[k]));
    }
    assert forall|k: int| 0 <= k < r.len() implies usable_for(#[trigger] r[k], apps, rm, mime) by {
        if k < n {
            assert(r.take(n)[k] == r[k]);
            assert(l[k] == r[k]);
        } else {
            assert(tail[k - n] == r[k]);
            assert(rest.contains(tail[k - n]));
        }
    }
    assert(rest.no_duplicates()) by {
        assert forall|i: int, j: int| 0 <= i < rest.len() && 0 <= j < rest.len() && i != j implies rest[i] != rest[j] by {
            if i < j {
                assert(rest[i].id != rest[j].id);
            } else {
                assert(rest[j].id != rest[i].id);
            }
        }
    }
    rest.lemma_multiset_has_no_duplicates();
    tail.lemma_multiset_has_no_duplicates_conv();
    assert forall|i: int, j: int| 0 <= i < j < r.len() implies r[i].id != r[j].id by {
        if j < n {
            assert(r.take(n)[i] == r[i] && r.take(n)[j] == r[j]);
            assert(l[i] == r[i] && l[j] == r[j]);
        } else if i < n {
            assert(r.take(n)[i] == r[i]);
            assert(l[i] == r[i]);
            assert(ids_of(l)[i] == r[i].id);
            assert(ids_of(l).contains(r[i].id));
            assert(tail[j - n] == r[j]);
            assert(rest.contains(tail[j - n]));
            let k = choose|k: int| 0 <= k < rest.len() && rest[k] == tail[j - n];
            assert(!ids_of(l).contains(rest[k].id));
        } else {
            assert(tail[i - n] == r[i] && tail[j - n] == r[j]);
            assert(rest.contains(tail[i - n]) && rest.contains(tail[j - n]));
            if r[i].id == r[j].id {
                let a = choose|a: int| 0 <= a < apps.len() && apps[a] == r[i];
                let b = choose|b: int| 0 <= b < apps.len() && apps[b] == r[j];
                assert(a == b);
                assert(tail[i - n] != tail[j - n]);
            }
        }
    }
}

} // verus!
