//! XDG user directories (`xdg-user-dirs`): `user-dirs.dirs` parsing and
//! the choice of each directory.
//!
//! Reading `user-dirs.dirs` and checking which directories exist is the
//! caller's part.
use vstd::prelude::*;

use crate::text::{
    chars_of, eq_chars, find_char, find_from, is_prefix, lemma_find_from, lines, opt_text,
    push_all, slice_to_vec, split_lines, split_once, split_once_chars, starts_with, str_eq,
    string_of, trim, trim_matches, trim_matches_chars, trimmed, lemma_trim_start_unique,
    lemma_trim_end_unique, strip_char_start, strip_char_end,
};
use crate::xdg::base::{home_dir, home_spec, path_join, path_join_spec};

verus! {

/// Standard user directories.
#[derive(Debug, Clone, Copy, PartialEq, Eq, Hash, Structural)]
pub enum UserDirKind {
    Desktop,
    Documents,
    Download,
    Music,
    Pictures,
    Videos,
    Templates,
    PublicShare,
}

pub open spec fn var_name_spec(k: UserDirKind) -> Seq<char> {
    match k {
        UserDirKind::Desktop => "XDG_DESKTOP_DIR"@,
        UserDirKind::Documents => "XDG_DOCUMENTS_DIR"@,
        UserDirKind::Download => "XDG_DOWNLOAD_DIR"@,
        UserDirKind::Music => "XDG_MUSIC_DIR"@,
        UserDirKind::Pictures => "XDG_PICTURES_DIR"@,
        UserDirKind::Videos => "XDG_VIDEOS_DIR"@,
        UserDirKind::Templates => "XDG_TEMPLATES_DIR"@,
        UserDirKind::PublicShare => "XDG_PUBLICSHARE_DIR"@,
    }
}

pub open spec fn default_name_spec(k: UserDirKind) -> Seq<char> {
    match k {
        UserDirKind::Desktop => "Desktop"@,
        UserDirKind::Documents => "Documents"@,
        UserDirKind::Download => "Downloads"@,
        UserDirKind::Music => "Music"@,
        UserDirKind::Pictures => "Pictures"@,
        UserDirKind::Videos => "Videos"@,
        UserDirKind::Templates => "Templates"@,
        UserDirKind::PublicShare => "Public"@,
    }
}

/// All kinds, in declaration order.
pub open spec fn all_kinds() -> Seq<UserDirKind> {
    seq![
        UserDirKind::Desktop,
        UserDirKind::Documents,
        UserDirKind::Download,
        UserDirKind::Music,
        UserDirKind::Pictures,
        UserDirKind::Videos,
        UserDirKind::Templates,
        UserDirKind::PublicShare,
    ]
}

impl UserDirKind {
    /// The `user-dirs.dirs` variable of this directory.
    pub fn var_name(self) -> (r: &'static str)
        ensures
            r@ == var_name_spec(self),
    {
        match self {
            UserDirKind::Desktop => "XDG_DESKTOP_DIR",
            UserDirKind::Documents => "XDG_DOCUMENTS_DIR",
            UserDirKind::Download => "XDG_DOWNLOAD_DIR",
            UserDirKind::Music => "XDG_MUSIC_DIR",
            UserDirKind::Pictures => "XDG_PICTURES_DIR",
            UserDirKind::Videos => "XDG_VIDEOS_DIR",
            UserDirKind::Templates => "XDG_TEMPLATES_DIR",
            UserDirKind::PublicShare => "XDG_PUBLICSHARE_DIR",
        }
    }

    /// The English default name of this directory under home.
    pub fn default_name(self) -> (r: &'static str)
        ensures
            r@ == default_name_spec(self),
    {
        match self {
            UserDirKind::Desktop => "Desktop",
            UserDirKind::Documents => "Documents",
            UserDirKind::Download => "Downloads",
            UserDirKind::Music => "Music",
            UserDirKind::Pictures => "Pictures",
            UserDirKind::Videos => "Videos",
            UserDirKind::Templates => "Templates",
            UserDirKind::PublicShare => "Public",
        }
    }

    /// All kinds, in declaration order.
    pub fn all() -> (r: Vec<UserDirKind>)
        ensures
            r@ == all_kinds(),
    {
        let r = vec![
            UserDirKind::Desktop,
            UserDirKind::Documents,
            UserDirKind::Download,
            UserDirKind::Music,
            UserDirKind::Pictures,
            UserDirKind::Videos,
            UserDirKind::Templates,
            UserDirKind::PublicShare,
        ];
        assert(r@ =~= all_kinds());
        r
    }
}

/// The kind whose variable is `key`.
pub open spec fn kind_of_key(key: Seq<char>) -> Option<UserDirKind> {
    if key == var_name_spec(UserDirKind::Desktop) {
        Some(UserDirKind::Desktop)
    } else if key == var_name_spec(UserDirKind::Documents) {
        Some(UserDirKind::Documents)
    } else if key == var_name_spec(UserDirKind::Download) {
        Some(UserDirKind::Download)
    } else if key == var_name_spec(UserDirKind::Music) {
        Some(UserDirKind::Music)
    } else if key == var_name_spec(UserDirKind::Pictures) {
        Some(UserDirKind::Pictures)
    } else if key == var_name_spec(UserDirKind::Videos) {
        Some(UserDirKind::Videos)
    } else if key == var_name_spec(UserDirKind::Templates) {
        Some(UserDirKind::Templates)
    } else if key == var_name_spec(UserDirKind::PublicShare) {
        Some(UserDirKind::PublicShare)
    } else {
        None
    }
}

/// Every kind's variable name is read back as that kind.
pub proof fn law_kind_of_var_name(k: UserDirKind)
    ensures
        kind_of_key(var_name_spec(k)) == Some(k),
{
    reveal_strlit("XDG_DESKTOP_DIR");
    reveal_strlit("XDG_DOCUMENTS_DIR");
    reveal_strlit("XDG_DOWNLOAD_DIR");
    reveal_strlit("XDG_MUSIC_DIR");
    reveal_strlit("XDG_PICTURES_DIR");
    reveal_strlit("XDG_VIDEOS_DIR");
    reveal_strlit("XDG_TEMPLATES_DIR");
    reveal_strlit("XDG_PUBLICSHARE_DIR");
    assert(var_name_spec(UserDirKind::Desktop).len() == 15 && var_name_spec(UserDirKind::Desktop)[4] == 'D' && var_name_spec(UserDirKind::Desktop)[5] == 'E' && var_name_spec(UserDirKind::Desktop)[6] == 'S');
    assert(var_name_spec(UserDirKind::Documents).len() == 17 && var_name_spec(UserDirKind::Documents)[4] == 'D' && var_name_spec(UserDirKind::Documents)[5] == 'O' && var_name_spec(UserDirKind::Documents)[6] == 'C');
    assert(var_name_spec(UserDirKind::Download).len() == 16 && var_name_spec(UserDirKind::Download)[4] == 'D' && var_name_spec(UserDirKind::Download)[5] == 'O' && var_name_spec(UserDirKind::Download)[6] == 'W');
    assert(var_name_spec(UserDirKind::Music).len() == 13 && var_name_spec(UserDirKind::Music)[4] == 'M' && var_name_spec(UserDirKind::Music)[5] == 'U' && var_name_spec(UserDirKind::Music)[6] == 'S');
    assert(var_name_spec(UserDirKind::Pictures).len() == 16 && var_name_spec(UserDirKind::Pictures)[4] == 'P' && var_name_spec(UserDirKind::Pictures)[5] == 'I' && var_name_spec(UserDirKind::Pictures)[6] == 'C');
    assert(var_name_spec(UserDirKind::Videos).len() == 14 && var_name_spec(UserDirKind::Videos)[4] == 'V' && var_name_spec(UserDirKind::Videos)[5] == 'I' && var_name_spec(UserDirKind::Videos)[6] == 'D');
    assert(var_name_spec(UserDirKind::Templates).len() == 17 && var_name_spec(UserDirKind::Templates)[4] == 'T' && var_name_spec(UserDirKind::Templates)[5] == 'E' && var_name_spec(UserDirKind::Templates)[6] == 'M');
    assert(var_name_spec(UserDirKind::PublicShare).len() == 19 && var_name_spec(UserDirKind::PublicShare)[4] == 'P' && var_name_spec(UserDirKind::PublicShare)[5] == 'U' && var_name_spec(UserDirKind::PublicShare)[6] == 'B');
}

proof fn lemma_var_name_shape(k: UserDirKind)
    ensures
        var_name_spec(k).len() > 1,
        var_name_spec(k)[0] == 'X',
        var_name_spec(k).last() == 'R',
        forall|i: int| 0 <= i < var_name_spec(k).len() ==> #[trigger] var_name_spec(k)[i] != '=',
{
    reveal_strlit("XDG_DESKTOP_DIR");
    reveal_strlit("XDG_DOCUMENTS_DIR");
    reveal_strlit("XDG_DOWNLOAD_DIR");
    reveal_strlit("XDG_MUSIC_DIR");
    reveal_strlit("XDG_PICTURES_DIR");
    reveal_strlit("XDG_VIDEOS_DIR");
    reveal_strlit("XDG_TEMPLATES_DIR");
    reveal_strlit("XDG_PUBLICSHARE_DIR");
}

/// A line `KEY="value"` of `user-dirs.dirs` whose key is the variable name
/// of any kind of user directory configures that kind, with the directory
/// the value names (for a value that is not empty and neither starts nor
/// ends with a quote).
pub proof fn law_dirs_line_kind(k: UserDirKind, v: Seq<char>, home: Seq<char>)
    requires
        v.len() > 0,
        v[0] != '"',
        v.last() != '"',
    ensures
        dirs_line(var_name_spec(k) + "=\""@ + v + "\""@, home) == Some((k, resolve_value(v, home))),
{
    reveal_strlit("=\"");
    reveal_strlit("\"");
    let name = var_name_spec(k);
    lemma_var_name_shape(k);
    law_kind_of_var_name(k);
    let line = name + "=\""@ + v + "\""@;
    let n = name.len() as int;
    assert(line[0] == 'X');
    assert(line.last() == '"');
    lemma_trim_start_unique(line, 0);
    lemma_trim_end_unique(line, line.len() as int);
    assert(trim(line) =~= line);
    assert(line[n] == '=');
    assert forall|i: int| 0 <= i < n implies line[i] != '=' by {
        assert(line[i] == name[i]);
    }
    lemma_find_from(line, '=', 0);
    assert(find_from(line, '=', 0) == n);
    assert(line.subrange(0, n) =~= name);
    lemma_trim_start_unique(name, 0);
    lemma_trim_end_unique(name, n);
    assert(trim(name) =~= name);
    let q = seq!['"'] + v + seq!['"'];
    assert(line.subrange(n + 1, line.len() as int) =~= q);
    lemma_trim_start_unique(q, 0);
    lemma_trim_end_unique(q, q.len() as int);
    assert(trim(q) =~= q);
    assert(q.drop_first() =~= v + seq!['"']);
    assert((v + seq!['"'])[0] == v[0]);
    assert(q[0] == '"');
    assert(strip_char_start(v + seq!['"'], '"') == v + seq!['"']);
    assert(strip_char_start(q, '"') == strip_char_start(q.drop_first(), '"'));
    assert(strip_char_start(q, '"') == v + seq!['"']);
    assert((v + seq!['"']).drop_last() =~= v);
    assert(strip_char_end(v + seq!['"'], '"') == strip_char_end(v, '"'));
    assert(strip_char_end(v, '"') == v);
    assert(trim_matches(q, '"') == v);
}

fn kind_of_key_exec(key: &[char]) -> (r: Option<UserDirKind>)
    ensures
        r == kind_of_key(key@),
{
    let all = UserDirKind::all();
    let mut i: usize = 0;
    while i < all.len()
        invariant
            i <= all@.len(),
            all@ == all_kinds(),
            forall|j: int| 0 <= j < i ==> key@ != var_name_spec(#[trigger] all@[j]),
        decreases all.len() - i,
    {
        let k = all[i];
        if eq_chars(chars_of(k.var_name()).as_slice(), key) {
            return Some(k);
        }
        i = i + 1;
    }
    assert(key@ != var_name_spec(all@[0]));
    assert(key@ != var_name_spec(all@[1]));
    assert(key@ != var_name_spec(all@[2]));
    assert(key@ != var_name_spec(all@[3]));
    assert(key@ != var_name_spec(all@[4]));
    assert(key@ != var_name_spec(all@[5]));
    assert(key@ != var_name_spec(all@[6]));
    assert(key@ != var_name_spec(all@[7]));
    None
}

/// The directory a value of `user-dirs.dirs` names: `$HOME/…` and the
/// home directory's own path followed by `/` are taken relative to home,
/// `$HOME` is home.
pub open spec fn resolve_value(v: Seq<char>, home: Seq<char>) -> Seq<char> {
    if is_prefix("$HOME/"@, v) {
        path_join_spec(home, v.skip(6))
    } else if v == "$HOME"@ {
        home
    } else if is_prefix(home + seq!['/'], v) {
        path_join_spec(home, v.skip(home.len() + 1int))
    } else {
        v
    }
}

/// One line of `user-dirs.dirs`.
pub open spec fn dirs_line(line: Seq<char>, home: Seq<char>) -> Option<(UserDirKind, Seq<char>)> {
    let l = trim(line);
    if l.len() == 0 || l[0] == '#' {
        None
    } else {
        match split_once(l, '=') {
            None => None,
            Some((k, v)) => match kind_of_key(trim(k)) {
                Some(kind) => Some((kind, resolve_value(trim_matches(trim(v), '"'), home))),
                None => None,
            },
        }
    }
}

pub open spec fn dirs_step(home: Seq<char>) -> spec_fn(Seq<(UserDirKind, Seq<char>)>, Seq<char>) -> Seq<(UserDirKind, Seq<char>)> {
    |acc: Seq<(UserDirKind, Seq<char>)>, line: Seq<char>| match dirs_line(line, home) {
        Some(p) => acc.push(p),
        None => acc,
    }
}

/// The directories configured in `user-dirs.dirs` content, in order.
pub open spec fn load_spec(content: Seq<char>, home: Seq<char>) -> Seq<(UserDirKind, Seq<char>)> {
    lines(content).fold_left(Seq::empty(), dirs_step(home))
}

pub open spec fn dir_views(v: Seq<(UserDirKind, String)>) -> Seq<(UserDirKind, Seq<char>)> {
    v.map_values(|p: (UserDirKind, String)| (p.0, p.1@))
}

fn dirs_line_exec(line: &[char], home: &[char]) -> (r: Option<(UserDirKind, Vec<char>)>)
    ensures
        match r {
            Some((k, v)) => dirs_line(line@, home@) == Some((k, v@)),
            None => dirs_line(line@, home@) is None,
        },
{
    let l = trimmed(line);
    if l.len() == 0 || l[0] == '#' {
        return None;
    }
    match split_once_chars(l.as_slice(), '=') {
        None => None,
        Some((k, v)) => {
            let kt = trimmed(k.as_slice());
            let kind = match kind_of_key_exec(kt.as_slice()) {
                Some(kind) => kind,
                None => {
                    return None;
                },
            };
            let vt = trimmed(v.as_slice());
            let v2 = trim_matches_chars(vt.as_slice(), '"');
            proof {
                reveal_strlit("$HOME/");
                reveal_strlit("$HOME");
            }
            let hs = string_of(home);
            let value = if starts_with(v2.as_slice(), chars_of("$HOME/").as_slice()) {
                let rest = string_of(slice_to_vec(v2.as_slice(), 6, v2.len()).as_slice());
                assert(rest@ =~= v2@.skip(6));
                chars_of(path_join(hs.as_str(), rest.as_str()).as_str())
            } else if eq_chars(v2.as_slice(), chars_of("$HOME").as_slice()) {
                slice_to_vec(home, 0, home.len())
            } else {
                let mut hp = slice_to_vec(home, 0, home.len());
                hp.push('/');
                assert(home@.subrange(0, home@.len() as int) =~= home@);
                assert(hp@ =~= home@ + seq!['/']);
                if starts_with(v2.as_slice(), hp.as_slice()) {
                    let rest = string_of(slice_to_vec(v2.as_slice(), hp.len(), v2.len()).as_slice());
                    assert(rest@ =~= v2@.skip(home@.len() + 1int));
                    chars_of(path_join(hs.as_str(), rest.as_str()).as_str())
                } else {
                    v2
                }
            };
            assert(home@.subrange(0, home@.len() as int) =~= home@);
            Some((kind, value))
        },
    }
}

/// Parse `user-dirs.dirs` content; `home` is `$HOME`.
pub fn load_user_dirs(content: &str, home: Option<&str>) -> (r: Vec<(UserDirKind, String)>)
    ensures
        dir_views(r@) == load_spec(content@, home_spec(opt_text(home))),
{
    let c = chars_of(content);
    let hs = home_dir(home);
    let h = chars_of(hs.as_str());
    let ls = split_lines(c.as_slice());
    let ghost hv = home_spec(opt_text(home));
    let ghost lv = ls@.map_values(|l: Vec<char>| l@);
    let mut out: Vec<(UserDirKind, String)> = Vec::new();
    let mut k: usize = 0;
    assert(lv.take(0) =~= Seq::<Seq<char>>::empty());
    while k < ls.len()
        invariant
            k <= ls@.len(),
            lv == ls@.map_values(|l: Vec<char>| l@),
            lv == lines(content@),
            h@ == hv,
            dir_views(out@) == lv.take(k as int).fold_left(Seq::empty(), dirs_step(hv)),
        decreases ls.len() - k,
    {
        let ghost prev = dir_views(out@);
        assert(lv.take(k + 1).drop_last() =~= lv.take(k as int));
        match dirs_line_exec(ls[k].as_slice(), h.as_slice()) {
            Some((kind, value)) => {
                out.push((kind, string_of(value.as_slice())));
                assert(dir_views(out@) =~= prev.push((kind, value@)));
            },
            None => {},
        }
        k = k + 1;
    }
    assert(lv.take(ls@.len() as int) =~= lv);
    out
}

/// The first directory configured for `kind`.
pub open spec fn configured(dirs: Seq<(UserDirKind, Seq<char>)>, kind: UserDirKind) -> Option<Seq<char>>
    decreases dirs.len(),
{
    if dirs.len() == 0 {
        None
    } else if dirs[0].0 == kind {
        Some(dirs[0].1)
    } else {
        configured(dirs.drop_first(), kind)
    }
}

fn configured_exec(kind: UserDirKind, dirs: &[(UserDirKind, String)]) -> (r: Option<String>)
    ensures
        match r {
            Some(p) => configured(dir_views(dirs@), kind) == Some(p@),
            None => configured(dir_views(dirs@), kind) is None,
        },
{
    let ghost dv = dir_views(dirs@);
    let mut i: usize = 0;
    assert(dv.skip(0) =~= dv);
    while i < dirs.len()
        invariant
            i <= dirs@.len(),
            dv == dir_views(dirs@),
            configured(dv.skip(i as int), kind) == configured(dv, kind),
        decreases dirs.len() - i,
    {
        assert(dv.skip(i as int).drop_first() =~= dv.skip(i + 1));
        if dirs[i].0 == kind {
            return Some(dirs[i].1.clone());
        }
        i = i + 1;
    }
    None
}

/// The two candidates for a user directory: the one configured (unless it
/// is the home directory itself) and `$HOME/<default name>`. The caller
/// checks which of them is an existing directory.
pub fn user_dir_candidates(kind: UserDirKind, dirs: &[(UserDirKind, String)], home: Option<&str>) -> (r: (Option<String>, String))
    ensures
        match r.0 {
            Some(p) => configured(dir_views(dirs@), kind) == Some(p@) && !same_path(p@, home_spec(opt_text(home))),
            None => configured(dir_views(dirs@), kind) is None || same_path(
                configured(dir_views(dirs@), kind)->0,
                home_spec(opt_text(home)),
            ),
        },
        r.1@ == path_join_spec(home_spec(opt_text(home)), default_name_spec(kind)),
{
    let hs = home_dir(home);
    let found = configured_exec(kind, dirs);
    let conf = match found {
        Some(p) => if same_path_exec(p.as_str(), hs.as_str()) {
            None
        } else {
            Some(p)
        },
        None => None,
    };
    (conf, path_join(hs.as_str(), kind.default_name()))
}

/// The directory for `kind`: the configured one when it is an existing
/// directory other than home, else `$HOME/<default name>` when that exists.
/// `configured_is_dir` and `fallback_is_dir` say which of the two
/// candidates of [`user_dir_candidates`] are existing directories.
pub fn user_dir(kind: UserDirKind, dirs: &[(UserDirKind, String)], home: Option<&str>, configured_is_dir: bool, fallback_is_dir: bool) -> (r: Option<String>)
    ensures
        ({
            let (c, f) = (configured(dir_views(dirs@), kind), path_join_spec(home_spec(opt_text(home)), default_name_spec(kind)));
            let usable = c is Some && !same_path(c->0, home_spec(opt_text(home))) && configured_is_dir;
            if usable {
                r is Some && r->0@ == c->0
            } else if fallback_is_dir {
                r is Some && r->0@ == f
            } else {
                r is None
            }
        }),
{
    let (c, f) = user_dir_candidates(kind, dirs, home);
    match c {
        Some(p) => if configured_is_dir {
            return Some(p);
        },
        None => {},
    }
    if fallback_is_dir {
        Some(f)
    } else {
        None
    }
}

/// The components of a path as `Path::components` sees them: whether it is
/// absolute, and its pieces without empty and `.` pieces (a leading `.` of a
/// relative path is kept).
pub open spec fn components(p: Seq<char>) -> (bool, Seq<Seq<char>>) {
    let absolute = p.len() > 0 && p[0] == '/';
    let lead_dot = !absolute && (p == seq!['.'] || is_prefix(seq!['.', '/'], p));
    (absolute, if lead_dot { seq![seq!['.']] + pieces_from(p, 0) } else { pieces_from(p, 0) })
}

/// The pieces of `p` from offset `i` on, empty and `.` pieces dropped.
pub open spec fn pieces_from(p: Seq<char>, i: int) -> Seq<Seq<char>>
    decreases p.len() - i,
    when 0 <= i <= p.len()
{
    let j = find_from(p, '/', i);
    let piece = if i <= j <= p.len() { p.subrange(i, j) } else { Seq::empty() };
    let head = if piece.len() == 0 || piece == seq!['.'] { Seq::empty() } else { seq![piece] };
    if i <= j < p.len() {
        head + pieces_from(p, j + 1)
    } else {
        head
    }
}

/// Path equality as `PathBuf`'s `==` decides it: by components.
pub open spec fn same_path(a: Seq<char>, b: Seq<char>) -> bool {
    components(a) == components(b)
}

fn pieces(p: &[char]) -> (r: Vec<Vec<char>>)
    ensures
        r@.map_values(|v: Vec<char>| v@) == pieces_from(p@, 0),
{
    let n = p.len();
    let mut out: Vec<Vec<char>> = Vec::new();
    let mut i: usize = 0;
    let ghost empty: Seq<Seq<char>> = Seq::empty();
    assert(out@.map_values(|v: Vec<char>| v@) =~= empty);
    loop
        invariant_except_break
            i <= n == p@.len(),
            out@.map_values(|v: Vec<char>| v@) + pieces_from(p@, i as int) == pieces_from(p@, 0),
        ensures
            out@.map_values(|v: Vec<char>| v@) == pieces_from(p@, 0),
        decreases n - i,
    {
        let j = find_char(p, '/', i);
        proof {
            lemma_find_from(p@, '/', i as int);
        }
        let piece = slice_to_vec(p, i, j);
        let ghost before = out@.map_values(|v: Vec<char>| v@);
        let ghost head = if piece@.len() == 0 || piece@ == seq!['.'] { Seq::<Seq<char>>::empty() } else { seq![piece@] };
        let is_dot = piece.len() == 1 && piece[0] == '.';
        assert(is_dot == (piece@ == seq!['.'])) by {
            if piece@ == seq!['.'] {
                assert(piece@.len() == 1);
            }
            if is_dot {
                assert(piece@ =~= seq!['.']);
            }
        }
        if piece.len() > 0 && !is_dot {
            out.push(piece);
        }
        assert(out@.map_values(|v: Vec<char>| v@) =~= before + head);
        if j >= n {
            break;
        }
        assert(pieces_from(p@, i as int) == head + pieces_from(p@, j + 1));
        assert(out@.map_values(|v: Vec<char>| v@) + pieces_from(p@, j + 1) =~= before + pieces_from(p@, i as int));
        i = j + 1;
    }
    out
}

fn components_exec(p: &[char]) -> (r: (bool, Vec<Vec<char>>))
    ensures
        (r.0, r.1@.map_values(|v: Vec<char>| v@)) == components(p@),
{
    let absolute = p.len() > 0 && p[0] == '/';
    let dot_slash: [char; 2] = ['.', '/'];
    assert(dot_slash@ =~= seq!['.', '/']);
    let lead_dot = !absolute && ((p.len() == 1 && p[0] == '.') || starts_with(p, &dot_slash));
    assert(lead_dot == (!absolute && (p@ == seq!['.'] || is_prefix(seq!['.', '/'], p@)))) by {
        if p@ == seq!['.'] {
            assert(p@.len() == 1);
        }
        if p.len() == 1 && p[0] == '.' {
            assert(p@ =~= seq!['.']);
        }
    }
    let ps = pieces(p);
    if lead_dot {
        let mut out: Vec<Vec<char>> = Vec::new();
        let mut d: Vec<char> = Vec::new();
        d.push('.');
        out.push(d);
        let ghost o = out@.map_values(|v: Vec<char>| v@);
        assert(o =~= seq![seq!['.']]);
        let mut k: usize = 0;
        while k < ps.len()
            invariant
                k <= ps@.len(),
                out@.map_values(|v: Vec<char>| v@) == o + ps@.map_values(|v: Vec<char>| v@).take(k as int),
            decreases ps.len() - k,
        {
            let ghost prev = out@.map_values(|v: Vec<char>| v@);
            let item = slice_to_vec(ps[k].as_slice(), 0, ps[k].len());
            assert(ps@[k as int]@.subrange(0, ps@[k as int]@.len() as int) =~= ps@[k as int]@);
            assert(item@ == ps@[k as int]@);
            out.push(item);
            assert(out@.map_values(|v: Vec<char>| v@) =~= prev.push(ps@[k as int]@));
            assert(out@.map_values(|v: Vec<char>| v@) =~= o + ps@.map_values(|v: Vec<char>| v@).take(k + 1));
            k = k + 1;
        }
        assert(ps@.map_values(|v: Vec<char>| v@).take(ps@.len() as int) =~= ps@.map_values(|v: Vec<char>| v@));
        (absolute, out)
    } else {
        (absolute, ps)
    }
}

fn same_path_exec(a: &str, b: &str) -> (r: bool)
    ensures
        r == same_path(a@, b@),
{
    let ca = chars_of(a);
    let cb = chars_of(b);
    let (aa, pa) = components_exec(ca.as_slice());
    let (ab, pb) = components_exec(cb.as_slice());
    let ghost va = pa@.map_values(|v: Vec<char>| v@);
    let ghost vb = pb@.map_values(|v: Vec<char>| v@);
    if aa != ab || pa.len() != pb.len() {
        assert(aa != ab || va.len() != vb.len());
        return false;
    }
    let mut i: usize = 0;
    while i < pa.len()
        invariant
            i <= pa@.len() == pb@.len(),
            va == pa@.map_values(|v: Vec<char>| v@),
            vb == pb@.map_values(|v: Vec<char>| v@),
            forall|j: int| 0 <= j < i ==> va[j] == vb[j],
            (aa, va) == components(a@),
            (ab, vb) == components(b@),
        decreases pa.len() - i,
    {
        if !eq_chars(pa[i].as_slice(), pb[i].as_slice()) {
            assert(va[i as int] != vb[i as int]);
            assert(va != vb);
            return false;
        }
        i = i + 1;
    }
    assert(va =~= vb);
    true
}

} // verus!
