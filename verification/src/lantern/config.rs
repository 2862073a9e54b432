//! Persistent configuration: a minimal `key = value` file at
//! `$XDG_CONFIG_HOME/lantern/lantern.conf`.
//!
//! Reading and writing the file is the caller's part.
use vstd::prelude::*;

use crate::engine::entry::SortKey;
use crate::engine::path::{join, join_spec};
use crate::text::{
    chars_of, eq_chars, lines, push_str, split_lines, split_once, split_once_chars, str_eq,
    string_of, trim, trimmed,
};

verus! {

/// Content presentation used by the active browser tab.
#[derive(Clone, Copy, PartialEq, Eq, Debug, Structural)]
pub enum ViewMode {
    /// Large square file tiles with names below their icons.
    Grid,
    /// Dense rows with sortable metadata columns.
    List,
    /// Hierarchical side-by-side directory columns.
    Miller,
}

pub open spec fn view_text(v: ViewMode) -> Seq<char> {
    match v {
        ViewMode::Grid => "grid"@,
        ViewMode::List => "list"@,
        ViewMode::Miller => "miller"@,
    }
}

pub open spec fn view_of(s: Seq<char>) -> ViewMode {
    if s == "grid"@ {
        ViewMode::Grid
    } else if s == "miller"@ {
        ViewMode::Miller
    } else {
        ViewMode::List
    }
}

impl ViewMode {
    pub fn as_str(self) -> (r: &'static str)
        ensures
            r@ == view_text(self),
    {
        match self {
            ViewMode::Grid => "grid",
            ViewMode::List => "list",
            ViewMode::Miller => "miller",
        }
    }

    /// The mode a configuration value names; anything unknown is `List`.
    pub fn from_str(value: &str) -> (r: ViewMode)
        ensures
            r == view_of(value@),
    {
        if str_eq(value, "grid") {
            ViewMode::Grid
        } else if str_eq(value, "miller") {
            ViewMode::Miller
        } else {
            ViewMode::List
        }
    }
}

/// Colour-scheme preference.
#[derive(Clone, Copy, PartialEq, Eq, Debug, Structural)]
pub enum ThemeMode {
    /// Follow the desktop (default).
    System,
    Light,
    Dark,
}

pub open spec fn theme_text(t: ThemeMode) -> Seq<char> {
    match t {
        ThemeMode::System => "system"@,
        ThemeMode::Light => "light"@,
        ThemeMode::Dark => "dark"@,
    }
}

pub open spec fn theme_of(s: Seq<char>) -> ThemeMode {
    if s == "light"@ {
        ThemeMode::Light
    } else if s == "dark"@ {
        ThemeMode::Dark
    } else {
        ThemeMode::System
    }
}

impl ThemeMode {
    pub fn as_str(self) -> (r: &'static str)
        ensures
            r@ == theme_text(self),
    {
        match self {
            ThemeMode::System => "system",
            ThemeMode::Light => "light",
            ThemeMode::Dark => "dark",
        }
    }

    /// The theme a configuration value names; anything unknown is `System`.
    pub fn from_str(s: &str) -> (r: ThemeMode)
        ensures
            r == theme_of(s@),
    {
        if str_eq(s, "light") {
            ThemeMode::Light
        } else if str_eq(s, "dark") {
            ThemeMode::Dark
        } else {
            ThemeMode::System
        }
    }
}

/// Everything remembered between runs.
#[derive(Clone, Debug)]
pub struct Config {
    pub show_hidden: bool,
    pub sort_key: SortKey,
    pub sort_ascending: bool,
    pub theme: ThemeMode,
    pub view_mode: ViewMode,
    /// User-pinned bookmark paths.
    pub bookmarks: Vec<String>,
}

pub struct ConfigView {
    pub show_hidden: bool,
    pub sort_key: SortKey,
    pub sort_ascending: bool,
    pub theme: ThemeMode,
    pub view_mode: ViewMode,
    pub bookmarks: Seq<Seq<char>>,
}

impl View for Config {
    type V = ConfigView;

    open spec fn view(&self) -> ConfigView {
        ConfigView {
            show_hidden: self.show_hidden,
            sort_key: self.sort_key,
            sort_ascending: self.sort_ascending,
            theme: self.theme,
            view_mode: self.view_mode,
            bookmarks: self.bookmarks@.map_values(|b: String| b@),
        }
    }
}

pub open spec fn default_view() -> ConfigView {
    ConfigView {
        show_hidden: false,
        sort_key: SortKey::Name,
        sort_ascending: true,
        theme: ThemeMode::System,
        view_mode: ViewMode::List,
        bookmarks: Seq::empty(),
    }
}

impl Default for Config {
    fn default() -> (c: Config)
        ensures
            c@ == default_view(),
    {
        let c = Config {
            show_hidden: false,
            sort_key: SortKey::Name,
            sort_ascending: true,
            theme: ThemeMode::System,
            view_mode: ViewMode::List,
            bookmarks: Vec::new(),
        };
        assert(c@.bookmarks =~= Seq::empty());
        c
    }
}

pub open spec fn parse_sort(s: Seq<char>) -> Option<SortKey> {
    if s == "name"@ {
        Some(SortKey::Name)
    } else if s == "size"@ {
        Some(SortKey::Size)
    } else if s == "mtime"@ {
        Some(SortKey::Mtime)
    } else {
        None
    }
}

/// One line of the configuration file; unknown keys, comments and lines
/// without `=` change nothing; a bookmark is added once.
pub open spec fn config_step(c: ConfigView, line: Seq<char>) -> ConfigView {
    let l = trim(line);
    if l.len() == 0 || l[0] == '#' {
        c
    } else {
        match split_once(l, '=') {
            None => c,
            Some((k0, v0)) => {
                let (k, v) = (trim(k0), trim(v0));
                if k == "show_hidden"@ {
                    ConfigView { show_hidden: v == "true"@, ..c }
                } else if k == "sort"@ {
                    match parse_sort(v) {
                        Some(key) => ConfigView { sort_key: key, ..c },
                        None => c,
                    }
                } else if k == "sort_ascending"@ {
                    ConfigView { sort_ascending: v == "true"@, ..c }
                } else if k == "theme"@ {
                    ConfigView { theme: theme_of(v), ..c }
                } else if k == "view"@ {
                    ConfigView { view_mode: view_of(v), ..c }
                } else if k == "bookmark"@ && v.len() > 0 && !c.bookmarks.contains(v) {
                    ConfigView { bookmarks: c.bookmarks.push(v), ..c }
                } else {
                    c
                }
            },
        }
    }
}

pub open spec fn apply_lines(c: ConfigView, ls: Seq<Seq<char>>) -> ConfigView
    decreases ls.len(),
{
    if ls.len() == 0 {
        c
    } else {
        config_step(apply_lines(c, ls.drop_last()), ls.last())
    }
}

pub open spec fn bool_text(b: bool) -> Seq<char> {
    if b {
        "true"@
    } else {
        "false"@
    }
}

pub open spec fn bookmark_lines(bs: Seq<Seq<char>>) -> Seq<char>
    decreases bs.len(),
{
    if bs.len() == 0 {
        Seq::empty()
    } else {
        bookmark_lines(bs.drop_last()) + "bookmark = "@ + bs.last() + "\n"@
    }
}

/// The text written for a configuration.
pub open spec fn config_text(c: ConfigView) -> Seq<char> {
    "# Lantern configuration\n"@ + "show_hidden = "@ + bool_text(c.show_hidden) + "\n"@ + "sort = "@
        + match c.sort_key {
        SortKey::Name => "name"@,
        SortKey::Size => "size"@,
        SortKey::Mtime => "mtime"@,
    } + "\n"@ + "sort_ascending = "@ + bool_text(c.sort_ascending) + "\n"@ + "theme = "@ + theme_text(c.theme)
        + "\n"@ + "view = "@ + view_text(c.view_mode) + "\n"@ + bookmark_lines(c.bookmarks)
}

fn contains_string(v: &Vec<String>, s: &[char]) -> (r: bool)
    ensures
        r == v@.map_values(|b: String| b@).contains(s@),
{
    let ghost vv = v@.map_values(|b: String| b@);
    let mut i: usize = 0;
    while i < v.len()
        invariant
            i <= v@.len(),
            vv == v@.map_values(|b: String| b@),
            forall|j: int| 0 <= j < i ==> vv[j] != s@,
        decreases v.len() - i,
    {
        if eq_chars(chars_of(v[i].as_str()).as_slice(), s) {
            assert(vv[i as int] == s@);
            return true;
        }
        i = i + 1;
    }
    false
}

fn push_bool(out: &mut Vec<char>, b: bool)
    ensures
        final(out)@ == old(out)@ + bool_text(b),
{
    if b {
        push_str(out, "true");
    } else {
        push_str(out, "false");
    }
}

impl Config {
    /// Apply the lines of a configuration file on top of this configuration.
    pub fn apply_str(&mut self, content: &str)
        ensures
            final(self)@ == apply_lines(old(self)@, lines(content@)),
    {
        let c = chars_of(content);
        let ls = split_lines(c.as_slice());
        let ghost lv = ls@.map_values(|l: Vec<char>| l@);
        let ghost c0 = self@;
        let mut k: usize = 0;
        proof {
            reveal_strlit("true");
        }
        assert(lv.take(0) =~= Seq::<Seq<char>>::empty());
        while k < ls.len()
            invariant
                k <= ls@.len(),
                lv == ls@.map_values(|l: Vec<char>| l@),
                lv == lines(content@),
                self@ == apply_lines(c0, lv.take(k as int)),
            decreases ls.len() - k,
        {
            assert(lv.take(k + 1).drop_last() =~= lv.take(k as int));
            assert(lv.take(k + 1).last() == ls@[k as int]@);
            let l = trimmed(ls[k].as_slice());
            if l.len() == 0 || l[0] == '#' {
            } else {
                match split_once_chars(l.as_slice(), '=') {
                    None => {},
                    Some((k0, v0)) => {
                        let key = string_of(trimmed(k0.as_slice()).as_slice());
                        let value = string_of(trimmed(v0.as_slice()).as_slice());
                        let vc = chars_of(value.as_str());
                        let is_true = str_eq(value.as_str(), "true");
                        if str_eq(key.as_str(), "show_hidden") {
                            self.show_hidden = is_true;
                        } else if str_eq(key.as_str(), "sort") {
                            match SortKey::parse(value.as_str()) {
                                Some(sk) => {
                                    self.sort_key = sk;
                                },
                                None => {},
                            }
                        } else if str_eq(key.as_str(), "sort_ascending") {
                            self.sort_ascending = is_true;
                        } else if str_eq(key.as_str(), "theme") {
                            self.theme = ThemeMode::from_str(value.as_str());
                        } else if str_eq(key.as_str(), "view") {
                            self.view_mode = ViewMode::from_str(value.as_str());
                        } else if str_eq(key.as_str(), "bookmark") && vc.len() > 0 && !contains_string(
                            &self.bookmarks,
                            vc.as_slice(),
                        ) {
                            let ghost bv = self@.bookmarks;
                            self.bookmarks.push(value);
                            assert(self@.bookmarks =~= bv.push(vc@));
                        }
                    },
                }
            }
            k = k + 1;
        }
        assert(lv.take(ls@.len() as int) =~= lv);
    }

    /// The file text of this configuration.
    pub fn to_str(&self) -> (r: String)
        ensures
            r@ == config_text(self@),
    {
        let mut out: Vec<char> = Vec::new();
        push_str(&mut out, "# Lantern configuration\n");
        push_str(&mut out, "show_hidden = ");
        push_bool(&mut out, self.show_hidden);
        push_str(&mut out, "\n");
        push_str(&mut out, "sort = ");
        push_str(&mut out, self.sort_key.as_str());
        push_str(&mut out, "\n");
        push_str(&mut out, "sort_ascending = ");
        push_bool(&mut out, self.sort_ascending);
        push_str(&mut out, "\n");
        push_str(&mut out, "theme = ");
        push_str(&mut out, self.theme.as_str());
        push_str(&mut out, "\n");
        push_str(&mut out, "view = ");
        push_str(&mut out, self.view_mode.as_str());
        push_str(&mut out, "\n");
        let ghost head = out@;
        let ghost bv = self@.bookmarks;
        let mut i: usize = 0;
        assert(bv.take(0) =~= Seq::<Seq<char>>::empty());
        assert(head + bookmark_lines(bv.take(0)) =~= head);
        while i < self.bookmarks.len()
            invariant
                i <= self.bookmarks@.len(),
                bv == self@.bookmarks,
                out@ == head + bookmark_lines(bv.take(i as int)),
            decreases self.bookmarks.len() - i,
        {
            assert(bv.take(i + 1).drop_last() =~= bv.take(i as int));
            assert(bv.take(i + 1).last() == self.bookmarks@[i as int]@);
            push_str(&mut out, "bookmark = ");
            push_str(&mut out, self.bookmarks[i].as_str());
            push_str(&mut out, "\n");
            i = i + 1;
        }
        assert(bv.take(self.bookmarks@.len() as int) =~= bv);
        string_of(out.as_slice())
    }
}

/// The configuration in `content` (defaults when there is no file).
pub fn load(content: Option<&str>) -> (c: Config)
    ensures
        match content {
            Some(t) => c@ == apply_lines(default_view(), lines(t@)),
            None => c@ == default_view(),
        },
{
    let mut cfg = Config::default();
    match content {
        Some(t) => cfg.apply_str(t),
        None => {},
    }
    cfg
}

/// The configuration file path: `$XDG_CONFIG_HOME/lantern/lantern.conf`,
/// with `home/.config` for an unset `XDG_CONFIG_HOME`.
pub fn config_path(xdg_config_home: Option<&str>, home: &str) -> (r: String)
    ensures
        r@ == join_spec(
            join_spec(
                match xdg_config_home {
                    Some(x) => x@,
                    None => join_spec(home@, ".config"@),
                },
                "lantern"@,
            ),
            "lantern.conf"@,
        ),
{
    let base = match xdg_config_home {
        Some(x) => String::from_str(x),
        None => join(home, ".config"),
    };
    let dir = join(base.as_str(), "lantern");
    join(dir.as_str(), "lantern.conf")
}

// ---- the file format round trip ------------------------------------------------

/// A `key = value` line as written to the file.
pub open spec fn kv_line(key: Seq<char>, value: Seq<char>) -> Seq<char> {
    key + " = "@ + value
}

/// The name written for a sort column.
pub open spec fn sort_text(k: SortKey) -> Seq<char> {
    match k {
        SortKey::Name => "name"@,
        SortKey::Size => "size"@,
        SortKey::Mtime => "mtime"@,
    }
}

/// A bookmark that survives being written and read back: non-empty,
/// without surrounding whitespace and on one line.
pub open spec fn storable_bookmark(b: Seq<char>) -> bool {
    &&& b.len() > 0
    &&& trim(b) == b
    &&& forall|i: int| 0 <= i < b.len() ==> b[i] != '\n'
}

/// The lines of the bookmarks `bs`, in order.
pub open spec fn bookmark_line_seq(bs: Seq<Seq<char>>) -> Seq<Seq<char>> {
    Seq::new(bs.len(), |i: int| kv_line("bookmark"@, bs[i]))
}

proof fn lemma_kv_parts(key: Seq<char>, value: Seq<char>)
    requires
        key.len() > 0,
        !crate::text::is_ws(key[0]),
        !crate::text::is_ws(key.last()),
        key[0] != '#',
        forall|i: int| 0 <= i < key.len() ==> key[i] != '=',
        value.len() > 0,
        trim(value) == value,
    ensures
        trim(kv_line(key, value)) == kv_line(key, value),
        kv_line(key, value).len() > 0,
        kv_line(key, value)[0] != '#',
        split_once(kv_line(key, value), '=') == Some((key + seq![' '], seq![' '] + value)),
        trim(key + seq![' ']) == key,
        trim(seq![' '] + value) == value,
        kv_line(key, value).last() != '\r',
{
    reveal_strlit(" = ");
    let l = kv_line(key, value);
    crate::text::lemma_trimmed_ends(value);
    assert(l[0] == key[0]);
    assert(l.last() == value.last());
    crate::text::lemma_trim_noop(l);
    assert forall|i: int| 0 <= i < key.len() + 1 implies l[i] != '=' by {
        if i < key.len() {
            assert(l[i] == key[i]);
        } else {
            assert(l[i] == ' ');
        }
    }
    assert(l[key.len() + 1int] == '=');
    crate::text::lemma_find_from_unique(l, '=', 0, key.len() + 1int);
    assert(l.subrange(0, key.len() + 1int) =~= key + seq![' ']);
    assert(l.subrange(key.len() + 2int, l.len() as int) =~= seq![' '] + value);
    crate::text::lemma_trim_noop(key);
    crate::text::lemma_trim_padded(Seq::empty(), key, seq![' ']);
    assert(Seq::<char>::empty() + key + seq![' '] =~= key + seq![' ']);
    crate::text::lemma_trim_padded(seq![' '], value, Seq::empty());
    assert(seq![' '] + value + Seq::<char>::empty() =~= seq![' '] + value);
}

proof fn lemma_kv_one_line(key: Seq<char>, value: Seq<char>)
    requires
        forall|i: int| 0 <= i < key.len() ==> key[i] != '\n',
        forall|i: int| 0 <= i < value.len() ==> value[i] != '\n',
        value.len() > 0,
        value.last() != '\r',
    ensures
        crate::text::lines(kv_line(key, value) + seq!['\n']) == seq![kv_line(key, value)],
{
    reveal_strlit(" = ");
    let l = kv_line(key, value);
    assert forall|i: int| 0 <= i < l.len() implies l[i] != '\n' by {
        if i < key.len() {
            assert(l[i] == key[i]);
        } else if i >= key.len() + 3 {
            assert(l[i] == value[i - key.len() - 3]);
        }
    }
    assert(l.last() == value.last());
    crate::text::lemma_lines_single(l);
}

proof fn lemma_apply_concat(c: ConfigView, x: Seq<Seq<char>>, y: Seq<Seq<char>>)
    ensures
        apply_lines(c, x + y) == apply_lines(apply_lines(c, x), y),
    decreases y.len(),
{
    if y.len() == 0 {
        assert(x + y =~= x);
    } else {
        assert((x + y).drop_last() =~= x + y.drop_last());
        assert((x + y).last() == y.last());
        lemma_apply_concat(c, x, y.drop_last());
    }
}

proof fn lemma_bookmark_text_lines(bs: Seq<Seq<char>>)
    requires
        forall|i: int| 0 <= i < bs.len() ==> storable_bookmark(#[trigger] bs[i]),
    ensures
        crate::text::lines(bookmark_lines(bs)) == bookmark_line_seq(bs),
        bookmark_lines(bs).len() == 0 || bookmark_lines(bs).last() == '\n',
    decreases bs.len(),
{
    reveal_strlit("bookmark");
    reveal_strlit("bookmark = ");
    reveal_strlit(" = ");
    reveal_strlit("\n");
    if bs.len() == 0 {
        assert(crate::text::lines(Seq::empty()) =~= Seq::<Seq<char>>::empty());
        assert(bookmark_line_seq(bs) =~= Seq::<Seq<char>>::empty());
    } else {
        let b = bs.last();
        assert(storable_bookmark(bs[bs.len() - 1]));
        lemma_bookmark_text_lines(bs.drop_last());
        crate::text::lemma_trimmed_ends(b);
        crate::text::lemma_trimmed_ends(b);
        assert(b.last() != '\r') by {
            assert(crate::text::is_ws('\r'));
        }
        lemma_kv_one_line("bookmark"@, b);
        let x = bookmark_lines(bs.drop_last());
        let y = kv_line("bookmark"@, b) + seq!['\n'];
        assert(bookmark_lines(bs) =~= x + y);
        crate::text::lemma_lines_append(x, y);
        assert(bookmark_line_seq(bs) =~= bookmark_line_seq(bs.drop_last()) + seq![kv_line("bookmark"@, b)]);
    }
}

proof fn lemma_apply_bookmarks(c: ConfigView, bs: Seq<Seq<char>>)
    requires
        c.bookmarks.len() == 0,
        bs.no_duplicates(),
        forall|i: int| 0 <= i < bs.len() ==> storable_bookmark(#[trigger] bs[i]),
    ensures
        apply_lines(c, bookmark_line_seq(bs)) == (ConfigView { bookmarks: bs, ..c }),
    decreases bs.len(),
{
    reveal_strlit("bookmark");
    reveal_strlit("show_hidden");
    reveal_strlit("sort");
    reveal_strlit("sort_ascending");
    reveal_strlit("theme");
    reveal_strlit("view");
    if bs.len() == 0 {
        assert(bookmark_line_seq(bs) =~= Seq::<Seq<char>>::empty());
        assert(c.bookmarks =~= bs);
    } else {
        let b = bs.last();
        let rest = bs.drop_last();
        assert(storable_bookmark(bs[bs.len() - 1]));
        assert(rest.no_duplicates());
        lemma_apply_bookmarks(c, rest);
        assert(bookmark_line_seq(bs).drop_last() =~= bookmark_line_seq(rest));
        assert(bookmark_line_seq(bs).last() == kv_line("bookmark"@, b));
        lemma_kv_parts("bookmark"@, b);
        assert(!rest.contains(b)) by {
            if rest.contains(b) {
                let j = choose|j: int| 0 <= j < rest.len() && rest[j] == b;
                assert(bs[j] == bs[bs.len() - 1]);
            }
        }
        let prev = ConfigView { bookmarks: rest, ..c };
        assert(config_step(prev, kv_line("bookmark"@, b)) == ConfigView { bookmarks: rest.push(b), ..c });
        assert(rest.push(b) =~= bs);
    }
}

/// The six fixed lines of the file: a comment, then the settings.
pub open spec fn fixed_lines(c: ConfigView) -> Seq<Seq<char>> {
    seq![
        "# Lantern configuration"@,
        kv_line("show_hidden"@, bool_text(c.show_hidden)),
        kv_line("sort"@, sort_text(c.sort_key)),
        kv_line("sort_ascending"@, bool_text(c.sort_ascending)),
        kv_line("theme"@, theme_text(c.theme)),
        kv_line("view"@, view_text(c.view_mode)),
    ]
}

proof fn lemma_assoc(a: Seq<char>, b: Seq<char>, c: Seq<char>)
    ensures
        (a + b) + c == a + (b + c),
{
    assert((a + b) + c =~= a + (b + c));
}

/// Regrouping a left-nested text of three-piece lines into lines.
proof fn lemma_regroup_line(pre: Seq<char>, k: Seq<char>, v: Seq<char>, n: Seq<char>, rest: Seq<char>)
    ensures
        ((pre + k) + v) + n + rest == pre + (((k + v) + n) + rest),
{
    lemma_assoc(pre, k, v);
    lemma_assoc(pre, k + v, n);
    lemma_assoc(pre, (k + v) + n, rest);
}

proof fn lemma_text_shape(c: ConfigView)
    ensures
        config_text(c) == (fixed_lines(c)[0] + seq!['\n']) + ((fixed_lines(c)[1] + seq!['\n']) + ((
        fixed_lines(c)[2] + seq!['\n']) + ((fixed_lines(c)[3] + seq!['\n']) + ((fixed_lines(c)[4]
            + seq!['\n']) + ((fixed_lines(c)[5] + seq!['\n']) + bookmark_lines(c.bookmarks)))))),
{
    let nl = seq!['\n'];
    assert("\n"@ == nl) by {
        reveal_strlit("\n");
    }
    assert("# Lantern configuration\n"@ == "# Lantern configuration"@ + nl) by {
        reveal_strlit("# Lantern configuration\n");
        reveal_strlit("# Lantern configuration");
        assert("# Lantern configuration\n"@ =~= "# Lantern configuration"@ + nl);
    }
    assert("show_hidden = "@ == "show_hidden"@ + " = "@) by {
        reveal_strlit("show_hidden = ");
        reveal_strlit("show_hidden");
        reveal_strlit(" = ");
        assert("show_hidden = "@ =~= "show_hidden"@ + " = "@);
    }
    assert("sort = "@ == "sort"@ + " = "@) by {
        reveal_strlit("sort = ");
        reveal_strlit("sort");
        reveal_strlit(" = ");
        assert("sort = "@ =~= "sort"@ + " = "@);
    }
    assert("sort_ascending = "@ == "sort_ascending"@ + " = "@) by {
        reveal_strlit("sort_ascending = ");
        reveal_strlit("sort_ascending");
        reveal_strlit(" = ");
        assert("sort_ascending = "@ =~= "sort_ascending"@ + " = "@);
    }
    assert("theme = "@ == "theme"@ + " = "@) by {
        reveal_strlit("theme = ");
        reveal_strlit("theme");
        reveal_strlit(" = ");
        assert("theme = "@ =~= "theme"@ + " = "@);
    }
    assert("view = "@ == "view"@ + " = "@) by {
        reveal_strlit("view = ");
        reveal_strlit("view");
        reveal_strlit(" = ");
        assert("view = "@ =~= "view"@ + " = "@);
    }
    let f = fixed_lines(c);
    let h = "# Lantern configuration\n"@;
    let (k1, v1) = ("show_hidden = "@, bool_text(c.show_hidden));
    let (k2, v2) = ("sort = "@, sort_text(c.sort_key));
    let (k3, v3) = ("sort_ascending = "@, bool_text(c.sort_ascending));
    let (k4, v4) = ("theme = "@, theme_text(c.theme));
    let (k5, v5) = ("view = "@, view_text(c.view_mode));
    let bm = bookmark_lines(c.bookmarks);
    let p1 = h;
    let p2 = ((p1 + k1) + v1) + nl;
    let p3 = ((p2 + k2) + v2) + nl;
    let p4 = ((p3 + k3) + v3) + nl;
    let p5 = ((p4 + k4) + v4) + nl;
    assert(config_text(c) == (((p5 + k5) + v5) + nl) + bm);
    lemma_regroup_line(p5, k5, v5, nl, bm);
    let r5 = ((k5 + v5) + nl) + bm;
    lemma_regroup_line(p4, k4, v4, nl, r5);
    let r4 = ((k4 + v4) + nl) + r5;
    lemma_regroup_line(p3, k3, v3, nl, r4);
    let r3 = ((k3 + v3) + nl) + r4;
    lemma_regroup_line(p2, k2, v2, nl, r3);
    let r2 = ((k2 + v2) + nl) + r3;
    lemma_regroup_line(p1, k1, v1, nl, r2);
    assert(config_text(c) == h + (((k1 + v1) + nl) + r2));
    assert(f[1] == k1 + v1) by {
        lemma_assoc("show_hidden"@, " = "@, v1);
    }
    assert(f[2] == k2 + v2) by {
        lemma_assoc("sort"@, " = "@, v2);
    }
    assert(f[3] == k3 + v3) by {
        lemma_assoc("sort_ascending"@, " = "@, v3);
    }
    assert(f[4] == k4 + v4) by {
        lemma_assoc("theme"@, " = "@, v4);
    }
    assert(f[5] == k5 + v5) by {
        lemma_assoc("view"@, " = "@, v5);
    }
}

proof fn lemma_fixed_one_line(c: ConfigView)
    ensures
        forall|i: int| 0 <= i < 6 ==> crate::text::lines(#[trigger] fixed_lines(c)[i] + seq!['\n']) == seq![fixed_lines(c)[i]],
{
    reveal_strlit("# Lantern configuration");
    reveal_strlit("show_hidden");
    reveal_strlit("sort");
    reveal_strlit("sort_ascending");
    reveal_strlit("theme");
    reveal_strlit("view");
    reveal_strlit("true");
    reveal_strlit("false");
    reveal_strlit("name");
    reveal_strlit("size");
    reveal_strlit("mtime");
    reveal_strlit("system");
    reveal_strlit("light");
    reveal_strlit("dark");
    reveal_strlit("grid");
    reveal_strlit("list");
    reveal_strlit("miller");
    crate::text::lemma_lines_single(fixed_lines(c)[0]);
    lemma_kv_one_line("show_hidden"@, bool_text(c.show_hidden));
    lemma_kv_one_line("sort"@, sort_text(c.sort_key));
    lemma_kv_one_line("sort_ascending"@, bool_text(c.sort_ascending));
    lemma_kv_one_line("theme"@, theme_text(c.theme));
    lemma_kv_one_line("view"@, view_text(c.view_mode));
}

proof fn lemma_config_lines(c: ConfigView)
    requires
        forall|i: int| 0 <= i < c.bookmarks.len() ==> storable_bookmark(#[trigger] c.bookmarks[i]),
    ensures
        crate::text::lines(config_text(c)) == fixed_lines(c) + bookmark_line_seq(c.bookmarks),
{
    let f = fixed_lines(c);
    let nl = seq!['\n'];
    let b = bookmark_lines(c.bookmarks);
    lemma_text_shape(c);
    lemma_fixed_one_line(c);
    lemma_bookmark_text_lines(c.bookmarks);
    assert(crate::text::lines(f[0] + nl) == seq![f[0]]);
    assert(crate::text::lines(f[1] + nl) == seq![f[1]]);
    assert(crate::text::lines(f[2] + nl) == seq![f[2]]);
    assert(crate::text::lines(f[3] + nl) == seq![f[3]]);
    assert(crate::text::lines(f[4] + nl) == seq![f[4]]);
    assert(crate::text::lines(f[5] + nl) == seq![f[5]]);
    let r5 = (f[5] + nl) + b;
    let r4 = (f[4] + nl) + r5;
    let r3 = (f[3] + nl) + r4;
    let r2 = (f[2] + nl) + r3;
    let r1 = (f[1] + nl) + r2;
    crate::text::lemma_lines_append(f[5] + nl, b);
    crate::text::lemma_lines_append(f[4] + nl, r5);
    crate::text::lemma_lines_append(f[3] + nl, r4);
    crate::text::lemma_lines_append(f[2] + nl, r3);
    crate::text::lemma_lines_append(f[1] + nl, r2);
    crate::text::lemma_lines_append(f[0] + nl, r1);
    assert(crate::text::lines(config_text(c)) =~= f + bookmark_line_seq(c.bookmarks));
}

proof fn lemma_bool_step(c: ConfigView, hidden: bool, b: bool)
    ensures
        hidden ==> config_step(c, kv_line("show_hidden"@, bool_text(b))) == (ConfigView { show_hidden: b, ..c }),
        !hidden ==> config_step(c, kv_line("sort_ascending"@, bool_text(b))) == (ConfigView { sort_ascending: b, ..c }),
{
    reveal_strlit("show_hidden");
    reveal_strlit("sort");
    reveal_strlit("sort_ascending");
    reveal_strlit("true");
    reveal_strlit("false");
    crate::text::lemma_trim_noop(bool_text(b));
    if hidden {
        lemma_kv_parts("show_hidden"@, bool_text(b));
    } else {
        lemma_kv_parts("sort_ascending"@, bool_text(b));
    }
}

proof fn lemma_sort_step(c: ConfigView, k: SortKey)
    ensures
        config_step(c, kv_line("sort"@, sort_text(k))) == (ConfigView { sort_key: k, ..c }),
{
    reveal_strlit("show_hidden");
    reveal_strlit("sort");
    reveal_strlit("name");
    reveal_strlit("size");
    reveal_strlit("mtime");
    crate::text::lemma_trim_noop(sort_text(k));
    lemma_kv_parts("sort"@, sort_text(k));
}

proof fn lemma_theme_step(c: ConfigView, t: ThemeMode)
    ensures
        config_step(c, kv_line("theme"@, theme_text(t))) == (ConfigView { theme: t, ..c }),
{
    reveal_strlit("show_hidden");
    reveal_strlit("sort");
    reveal_strlit("sort_ascending");
    reveal_strlit("theme");
    reveal_strlit("system");
    reveal_strlit("light");
    reveal_strlit("dark");
    crate::text::lemma_trim_noop(theme_text(t));
    lemma_kv_parts("theme"@, theme_text(t));
}

proof fn lemma_view_step(c: ConfigView, v: ViewMode)
    ensures
        config_step(c, kv_line("view"@, view_text(v))) == (ConfigView { view_mode: v, ..c }),
{
    reveal_strlit("show_hidden");
    reveal_strlit("sort");
    reveal_strlit("sort_ascending");
    reveal_strlit("theme");
    reveal_strlit("view");
    reveal_strlit("grid");
    reveal_strlit("list");
    reveal_strlit("miller");
    crate::text::lemma_trim_noop(view_text(v));
    lemma_kv_parts("view"@, view_text(v));
}

proof fn lemma_apply_fixed(c: ConfigView)
    ensures
        apply_lines(default_view(), fixed_lines(c)) == (ConfigView { bookmarks: Seq::empty(), ..c }),
{
    reveal_strlit("# Lantern configuration");
    let f = fixed_lines(c);
    let d = default_view();
    let a1 = config_step(d, f[0]);
    assert(a1 == d);
    lemma_bool_step(a1, true, c.show_hidden);
    let a2 = config_step(a1, f[1]);
    lemma_sort_step(a2, c.sort_key);
    let a3 = config_step(a2, f[2]);
    lemma_bool_step(a3, false, c.sort_ascending);
    let a4 = config_step(a3, f[3]);
    lemma_theme_step(a4, c.theme);
    let a5 = config_step(a4, f[4]);
    lemma_view_step(a5, c.view_mode);
    let a6 = config_step(a5, f[5]);
    assert(a6 == ConfigView { bookmarks: Seq::empty(), ..c });
    assert(f.take(0) =~= Seq::<Seq<char>>::empty());
    assert(f.take(1).drop_last() =~= f.take(0));
    assert(f.take(2).drop_last() =~= f.take(1));
    assert(f.take(3).drop_last() =~= f.take(2));
    assert(f.take(4).drop_last() =~= f.take(3));
    assert(f.take(5).drop_last() =~= f.take(4));
    assert(f.take(6).drop_last() =~= f.take(5));
    assert(f.take(1).last() == f[0]);
    assert(f.take(2).last() == f[1]);
    assert(f.take(3).last() == f[2]);
    assert(f.take(4).last() == f[3]);
    assert(f.take(5).last() == f[4]);
    assert(f.take(6).last() == f[5]);
    assert(apply_lines(d, f.take(0)) == d);
    assert(apply_lines(d, f.take(1)) == a1);
    assert(apply_lines(d, f.take(2)) == a2);
    assert(apply_lines(d, f.take(3)) == a3);
    assert(apply_lines(d, f.take(4)) == a4);
    assert(apply_lines(d, f.take(5)) == a5);
    assert(apply_lines(d, f.take(6)) == a6);
    assert(f.take(6) =~= f);
}

/// Writing a configuration and reading the file back gives the same
/// configuration, for bookmarks that are non-empty, distinct, free of
/// surrounding whitespace and on one line each.
pub proof fn law_config_roundtrip(c: ConfigView)
    requires
        c.bookmarks.no_duplicates(),
        forall|i: int| 0 <= i < c.bookmarks.len() ==> storable_bookmark(#[trigger] c.bookmarks[i]),
    ensures
        apply_lines(default_view(), crate::text::lines(config_text(c))) == c,
{
    lemma_config_lines(c);
    let f = fixed_lines(c);
    let bl = bookmark_line_seq(c.bookmarks);
    lemma_apply_concat(default_view(), f, bl);
    lemma_apply_fixed(c);
    let a6 = ConfigView { bookmarks: Seq::empty(), ..c };
    lemma_apply_bookmarks(a6, c.bookmarks);
    assert((ConfigView { bookmarks: c.bookmarks, ..a6 }) == c);
}

} // verus!
