//! XDG Base Directory Specification.
//!
//! Reading the environment is the caller's part: each function takes the
//! values of the variables it consults (`None` when unset). Empty or
//! relative values are treated as unset, as the specification asks.
use vstd::prelude::*;

use crate::text::{chars_of, find_char, find_from, lemma_find_from, opt_text, push_all, push_str, slice_to_vec, string_of};

verus! {

/// Absolute on Unix: starts at the root.
pub open spec fn is_abs(p: Seq<char>) -> bool {
    p.len() > 0 && p[0] == '/'
}

/// `PathBuf::join`: an absolute `name` replaces `dir`; otherwise a `/` is
/// put between them unless `dir` is empty or already ends with one.
pub open spec fn path_join_spec(dir: Seq<char>, name: Seq<char>) -> Seq<char> {
    if is_abs(name) {
        name
    } else if dir.len() == 0 || dir.last() == '/' {
        dir + name
    } else {
        dir + seq!['/'] + name
    }
}

pub fn path_join(dir: &str, name: &str) -> (r: String)
    ensures
        r@ == path_join_spec(dir@, name@),
{
    let d = chars_of(dir);
    let n = chars_of(name);
    if n.len() > 0 && n[0] == '/' {
        return string_of(n.as_slice());
    }
    let mut out = slice_to_vec(d.as_slice(), 0, d.len());
    assert(d@.subrange(0, d@.len() as int) =~= d@);
    if !(d.len() == 0 || d[d.len() - 1] == '/') {
        out.push('/');
    }
    push_all(&mut out, n.as_slice());
    string_of(out.as_slice())
}

/// A variable's value when it is set to an absolute path.
pub open spec fn abs_value(v: Option<Seq<char>>) -> Option<Seq<char>> {
    match v {
        Some(p) => if is_abs(p) {
            Some(p)
        } else {
            None
        },
        None => None,
    }
}

fn abs_env(v: Option<&str>) -> (r: Option<String>)
    ensures
        match r {
            Some(s) => abs_value(opt_text(v)) == Some(s@),
            None => abs_value(opt_text(v)) is None,
        },
{
    match v {
        Some(s) => {
            let c = chars_of(s);
            if c.len() > 0 && c[0] == '/' {
                Some(string_of(c.as_slice()))
            } else {
                None
            }
        },
        None => None,
    }
}

/// `$HOME` when absolute, else `/`.
pub open spec fn home_spec(home: Option<Seq<char>>) -> Seq<char> {
    match abs_value(home) {
        Some(h) => h,
        None => seq!['/'],
    }
}

/// The home directory (`$HOME`, or `/` as a last resort).
pub fn home_dir(home: Option<&str>) -> (r: String)
    ensures
        r@ == home_spec(opt_text(home)),
{
    match abs_env(home) {
        Some(h) => h,
        None => {
            let mut v: Vec<char> = Vec::new();
            v.push('/');
            assert(v@ =~= seq!['/']);
            string_of(v.as_slice())
        },
    }
}

/// `$VAR` when absolute, else `$HOME/<fallback>`.
pub open spec fn base_spec(var: Option<Seq<char>>, home: Option<Seq<char>>, fallback: Seq<char>) -> Seq<char> {
    match abs_value(var) {
        Some(p) => p,
        None => path_join_spec(home_spec(home), fallback),
    }
}

fn base_dir(var: Option<&str>, home: Option<&str>, fallback: &str) -> (r: String)
    ensures
        r@ == base_spec(opt_text(var), opt_text(home), fallback@),
{
    match abs_env(var) {
        Some(p) => p,
        None => {
            let h = home_dir(home);
            path_join(h.as_str(), fallback)
        },
    }
}

/// `$XDG_DATA_HOME` or `$HOME/.local/share`.
pub fn data_home(xdg_data_home: Option<&str>, home: Option<&str>) -> (r: String)
    ensures
        r@ == base_spec(opt_text(xdg_data_home), opt_text(home), ".local/share"@),
{
    base_dir(xdg_data_home, home, ".local/share")
}

/// `$XDG_CONFIG_HOME` or `$HOME/.config`.
pub fn config_home(xdg_config_home: Option<&str>, home: Option<&str>) -> (r: String)
    ensures
        r@ == base_spec(opt_text(xdg_config_home), opt_text(home), ".config"@),
{
    base_dir(xdg_config_home, home, ".config")
}

/// `$XDG_CACHE_HOME` or `$HOME/.cache`.
pub fn cache_home(xdg_cache_home: Option<&str>, home: Option<&str>) -> (r: String)
    ensures
        r@ == base_spec(opt_text(xdg_cache_home), opt_text(home), ".cache"@),
{
    base_dir(xdg_cache_home, home, ".cache")
}

/// `$XDG_STATE_HOME` or `$HOME/.local/state`.
pub fn state_home(xdg_state_home: Option<&str>, home: Option<&str>) -> (r: String)
    ensures
        r@ == base_spec(opt_text(xdg_state_home), opt_text(home), ".local/state"@),
{
    base_dir(xdg_state_home, home, ".local/state")
}

/// `$XDG_RUNTIME_DIR` when absolute.
pub fn runtime_dir(xdg_runtime_dir: Option<&str>) -> (r: Option<String>)
    ensures
        match r {
            Some(s) => abs_value(opt_text(xdg_runtime_dir)) == Some(s@),
            None => abs_value(opt_text(xdg_runtime_dir)) is None,
        },
{
    abs_env(xdg_runtime_dir)
}

/// The absolute ones among the `:`-separated pieces of a search-path value,
/// from offset `i` on (`env::split_paths`, keeping absolute paths).
pub open spec fn abs_from(v: Seq<char>, i: int) -> Seq<Seq<char>>
    decreases v.len() - i,
    when 0 <= i <= v.len()
{
    let j = find_from(v, ':', i);
    let piece = if i <= j <= v.len() { v.subrange(i, j) } else { Seq::empty() };
    let head = if is_abs(piece) { seq![piece] } else { Seq::empty() };
    if i <= j < v.len() {
        head + abs_from(v, j + 1)
    } else {
        head
    }
}

/// The directories of a search path: its absolute pieces, or `defaults`
/// when unset or when none is absolute.
pub open spec fn search_dirs(v: Option<Seq<char>>, defaults: Seq<Seq<char>>) -> Seq<Seq<char>> {
    match v {
        Some(s) => if abs_from(s, 0).len() > 0 {
            abs_from(s, 0)
        } else {
            defaults
        },
        None => defaults,
    }
}

pub open spec fn strs(v: Seq<String>) -> Seq<Seq<char>> {
    v.map_values(|s: String| s@)
}

fn abs_pieces(v: &str) -> (r: Vec<String>)
    ensures
        strs(r@) == abs_from(v@, 0),
{
    let c = chars_of(v);
    let n = c.len();
    let mut out: Vec<String> = Vec::new();
    let mut i: usize = 0;
    let ghost empty: Seq<Seq<char>> = Seq::empty();
    assert(strs(out@) =~= empty);
    loop
        invariant_except_break
            i <= n == c@.len(),
            c@ == v@,
            strs(out@) + abs_from(c@, i as int) == abs_from(c@, 0),
        ensures
            strs(out@) == abs_from(c@, 0),
        decreases n - i,
    {
        let j = find_char(c.as_slice(), ':', i);
        proof {
            lemma_find_from(c@, ':', i as int);
        }
        let piece = slice_to_vec(c.as_slice(), i, j);
        let ghost before = strs(out@);
        let ghost head = if is_abs(piece@) { seq![piece@] } else { Seq::<Seq<char>>::empty() };
        if piece.len() > 0 && piece[0] == '/' {
            out.push(string_of(piece.as_slice()));
            assert(strs(out@) =~= before + head);
        } else {
            assert(strs(out@) =~= before + head);
        }
        if j >= n {
            assert(abs_from(c@, i as int) == head);
            break;
        }
        assert(abs_from(c@, i as int) == head + abs_from(c@, j + 1));
        assert(strs(out@) + abs_from(c@, j + 1) =~= before + abs_from(c@, i as int));
        i = j + 1;
    }
    out
}

fn dirs_or(v: Option<&str>, defaults: Vec<String>) -> (r: Vec<String>)
    ensures
        strs(r@) == search_dirs(opt_text(v), strs(defaults@)),
{
    match v {
        Some(s) => {
            let ds = abs_pieces(s);
            if ds.len() > 0 {
                ds
            } else {
                defaults
            }
        },
        None => defaults,
    }
}

pub open spec fn default_data_dirs() -> Seq<Seq<char>> {
    seq!["/usr/local/share"@, "/usr/share"@]
}

pub open spec fn default_config_dirs() -> Seq<Seq<char>> {
    seq!["/etc/xdg"@]
}

/// Search path for data files: `$XDG_DATA_DIRS`, by default
/// `/usr/local/share` and `/usr/share`.
pub fn data_dirs(xdg_data_dirs: Option<&str>) -> (r: Vec<String>)
    ensures
        strs(r@) == search_dirs(opt_text(xdg_data_dirs), default_data_dirs()),
{
    let mut d: Vec<String> = Vec::new();
    d.push(String::from_str("/usr/local/share"));
    d.push(String::from_str("/usr/share"));
    assert(strs(d@) =~= default_data_dirs());
    dirs_or(xdg_data_dirs, d)
}

/// Search path for configuration files: `$XDG_CONFIG_DIRS`, by default
/// `/etc/xdg`.
pub fn config_dirs(xdg_config_dirs: Option<&str>) -> (r: Vec<String>)
    ensures
        strs(r@) == search_dirs(opt_text(xdg_config_dirs), default_config_dirs()),
{
    let mut d: Vec<String> = Vec::new();
    d.push(String::from_str("/etc/xdg"));
    assert(strs(d@) =~= default_config_dirs());
    dirs_or(xdg_config_dirs, d)
}

/// The data home followed by the data search path.
pub fn all_data_dirs(xdg_data_home: Option<&str>, home: Option<&str>, xdg_data_dirs: Option<&str>) -> (r: Vec<String>)
    ensures
        strs(r@) == seq![base_spec(opt_text(xdg_data_home), opt_text(home), ".local/share"@)] + search_dirs(
            opt_text(xdg_data_dirs),
            default_data_dirs(),
        ),
{
    let mut out: Vec<String> = Vec::new();
    out.push(data_home(xdg_data_home, home));
    let rest = data_dirs(xdg_data_dirs);
    let ghost o = out@;
    let mut k: usize = 0;
    while k < rest.len()
        invariant
            k <= rest@.len(),
            strs(out@) == strs(o) + strs(rest@).take(k as int),
        decreases rest.len() - k,
    {
        let ghost prev = out@;
        let item = rest[k].clone();
        out.push(item);
        assert(strs(out@) =~= strs(prev).push(strs(rest@)[k as int]));
        assert(strs(rest@).take(k + 1) =~= strs(rest@).take(k as int).push(strs(rest@)[k as int]));
        assert(strs(out@) =~= strs(o) + strs(rest@).take(k + 1));
        k = k + 1;
    }
    assert(strs(rest@).take(rest@.len() as int) =~= strs(rest@));
    out
}

/// The config home followed by the config search path.
pub fn all_config_dirs(xdg_config_home: Option<&str>, home: Option<&str>, xdg_config_dirs: Option<&str>) -> (r: Vec<String>)
    ensures
        strs(r@) == seq![base_spec(opt_text(xdg_config_home), opt_text(home), ".config"@)] + search_dirs(
            opt_text(xdg_config_dirs),
            default_config_dirs(),
        ),
{
    let mut out: Vec<String> = Vec::new();
    out.push(config_home(xdg_config_home, home));
    let rest = config_dirs(xdg_config_dirs);
    let ghost o = out@;
    let mut k: usize = 0;
    while k < rest.len()
        invariant
            k <= rest@.len(),
            strs(out@) == strs(o) + strs(rest@).take(k as int),
        decreases rest.len() - k,
    {
        let ghost prev = out@;
        let item = rest[k].clone();
        out.push(item);
        assert(strs(out@) =~= strs(prev).push(strs(rest@)[k as int]));
        assert(strs(rest@).take(k + 1) =~= strs(rest@).take(k as int).push(strs(rest@)[k as int]));
        assert(strs(out@) =~= strs(o) + strs(rest@).take(k + 1));
        k = k + 1;
    }
    assert(strs(rest@).take(rest@.len() as int) =~= strs(rest@));
    out
}

} // verus!
