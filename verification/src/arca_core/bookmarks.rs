//! Sidebar bookmarks: the home directory, the XDG user directories
//! (Desktop, Downloads, …) and user-pinned folders.
//!
//! Which directories exist is decided by the caller (filesystem access);
//! this module builds and classifies the bookmark list from plain values.
use vstd::prelude::*;
use vstd::utf8::{decode_utf8, encode_utf8, valid_utf8};

use crate::engine::path::{join_chars, join_spec};
use crate::text::{
    chars_of, eq_chars, ends_with, lines, slice_to_vec, split_lines, trim_matches, trim_matches_chars, is_prefix, is_suffix, last_segment, last_segment_of, push_all,
    split_once, split_once_chars, starts_with, str_eq, string_from_utf8, string_of, trim, trimmed,
};
use crate::xdg::uri::{ascii_chars, file_scheme, file_uri_bytes, pct_decode, pct_decode_from};

verus! {

/// Which fixed icon/label a bookmark maps to in the UI.
#[derive(Clone, Copy, PartialEq, Eq, Debug, Structural)]
pub enum BookmarkKind {
    Home,
    Desktop,
    Documents,
    Downloads,
    Music,
    Pictures,
    Videos,
    /// User-pinned or otherwise unrecognized folder.
    Folder,
}

/// Classification by the last path component.
pub open spec fn kind_for_name(name: Seq<char>) -> BookmarkKind {
    if name == "Desktop"@ {
        BookmarkKind::Desktop
    } else if name == "Documents"@ {
        BookmarkKind::Documents
    } else if name == "Downloads"@ {
        BookmarkKind::Downloads
    } else if name == "Music"@ {
        BookmarkKind::Music
    } else if name == "Pictures"@ {
        BookmarkKind::Pictures
    } else if name == "Videos"@ {
        BookmarkKind::Videos
    } else {
        BookmarkKind::Folder
    }
}

/// The home directory, or the kind named by the last
/// path component.
pub open spec fn kind_spec(path: Seq<char>, home: Seq<char>) -> BookmarkKind {
    if path == home {
        BookmarkKind::Home
    } else {
        kind_for_name(last_segment(path, '/'))
    }
}

fn kind_for_name_exec(name: &[char]) -> (k: BookmarkKind)
    ensures
        k == kind_for_name(name@),
{
    if eq_chars(name, chars_of("Desktop").as_slice()) {
        BookmarkKind::Desktop
    } else if eq_chars(name, chars_of("Documents").as_slice()) {
        BookmarkKind::Documents
    } else if eq_chars(name, chars_of("Downloads").as_slice()) {
        BookmarkKind::Downloads
    } else if eq_chars(name, chars_of("Music").as_slice()) {
        BookmarkKind::Music
    } else if eq_chars(name, chars_of("Pictures").as_slice()) {
        BookmarkKind::Pictures
    } else if eq_chars(name, chars_of("Videos").as_slice()) {
        BookmarkKind::Videos
    } else {
        BookmarkKind::Folder
    }
}

impl BookmarkKind {
    /// Classify a directory by its file name (`home` is the home directory).
    pub fn from_path(path: &str, home: &str) -> (k: BookmarkKind)
        ensures
            k == kind_spec(path@, home@),
    {
        let p = chars_of(path);
        if str_eq(path, home) {
            return BookmarkKind::Home;
        }
        let name = last_segment_of(p.as_slice(), '/');
        kind_for_name_exec(name.as_slice())
    }
}

/// One sidebar entry.
#[derive(Clone, Debug)]
pub struct Bookmark {
    pub name: String,
    pub path: String,
    pub kind: BookmarkKind,
    /// XDG/home entries are fixed; user bookmarks can be removed.
    pub pinned: bool,
}

/// Display name: the custom one, else "Home" for the home directory, else
/// the last path component.
pub open spec fn bookmark_name(path: Seq<char>, custom: Option<Seq<char>>, home: Seq<char>) -> Seq<char> {
    match custom {
        Some(n) => n,
        None => if kind_spec(path, home) == BookmarkKind::Home {
            "Home"@
        } else {
            last_segment(path, '/')
        },
    }
}

impl Bookmark {
    pub fn for_path(path: &str, home: &str) -> (b: Bookmark)
        ensures
            b.path@ == path@,
            b.kind == kind_spec(path@, home@),
            b.name@ == bookmark_name(path@, None, home@),
            b.pinned,
    {
        Self::for_path_with_name(path, None, home)
    }

    pub fn for_path_with_name(path: &str, custom_name: Option<String>, home: &str) -> (b: Bookmark)
        ensures
            b.path@ == path@,
            b.kind == kind_spec(path@, home@),
            b.name@ == bookmark_name(
                path@,
                match custom_name {
                    Some(n) => Some(n@),
                    None => None,
                },
                home@,
            ),
            b.pinned,
    {
        let kind = BookmarkKind::from_path(path, home);
        let name = match custom_name {
            Some(n) => n,
            None => match kind {
                BookmarkKind::Home => "Home".to_string(),
                _ => {
                    let p = chars_of(path);
                    let seg = last_segment_of(p.as_slice(), '/');
                    string_of(seg.as_slice())
                },
            },
        };
        Bookmark { name, path: path.to_string(), kind, pinned: true }
    }
}

/// Decoding of a `file://` URI: everything after the scheme is
/// percent-decoded and must be valid UTF-8.
pub open spec fn decode_uri_text(uri: Seq<char>) -> Option<Seq<char>> {
    let b = encode_utf8(uri);
    if b.len() >= 7 && b.take(7) == file_scheme() && valid_utf8(pct_decode(b.skip(7))) {
        Some(decode_utf8(pct_decode(b.skip(7))))
    } else {
        None
    }
}

/// Decode a `file://...` URI with percent-encoding into a local file path.
pub fn decode_file_uri(uri: &str) -> (r: Option<String>)
    ensures
        match r {
            Some(p) => decode_uri_text(uri@) == Some(p@),
            None => decode_uri_text(uri@) is None,
        },
{
    let b = uri.as_bytes();
    let scheme: [u8; 7] = [0x66, 0x69, 0x6c, 0x65, 0x3a, 0x2f, 0x2f];
    assert(scheme@ =~= file_scheme());
    if b.len() < 7 {
        return None;
    }
    let mut k: usize = 0;
    while k < 7
        invariant
            k <= 7,
            b@.len() >= 7,
            scheme@ == file_scheme(),
            b@ == encode_utf8(uri@),
            forall|j: int| 0 <= j < k ==> b@[j] == scheme@[j],
        decreases 7 - k,
    {
        if b[k] != scheme[k] {
            assert(b@.take(7)[k as int] == b@[k as int]);
            assert(b@.take(7) != file_scheme());
            return None;
        }
        k = k + 1;
    }
    assert(b@.take(7) =~= file_scheme());
    let bytes = pct_decode_from(b, 7);
    string_from_utf8(bytes)
}

/// Encode a local file path into a standard `file://...` URI.
pub fn encode_file_uri(path: &str) -> (r: String)
    ensures
        r@ == ascii_chars(file_uri_bytes(encode_utf8(path@))),
{
    crate::xdg::uri::encode_file_uri(path)
}

/// The uri and optional name of a bookmark line: the trimmed line split at
/// its first space (both halves trimmed); `None` for blank and comment lines.
pub open spec fn gtk_line_parts(line: Seq<char>) -> Option<(Seq<char>, Option<Seq<char>>)> {
    let l = trim(line);
    if l.len() == 0 || l[0] == '#' {
        None
    } else {
        match split_once(l, ' ') {
            Some((u, n)) => Some((trim(u), Some(trim(n)))),
            None => Some((l, None)),
        }
    }
}

/// Parse one line of `~/.config/gtk-3.0/bookmarks` (Freedesktop/XDG standard).
pub fn parse_gtk_bookmark_line(line: &str, home: &str) -> (r: Option<Bookmark>)
    ensures
        match r {
            Some(b) => gtk_line_parts(line@) matches Some((u, n)) && decode_uri_text(u) == Some(
                b.path@,
            ) && b.name@ == bookmark_name(b.path@, n, home@) && b.kind == kind_spec(
                b.path@,
                home@,
            ) && b.pinned,
            None => match gtk_line_parts(line@) {
                Some((u, n)) => decode_uri_text(u) is None,
                None => true,
            },
        },
{
    let lc = chars_of(line);
    let l = trimmed(lc.as_slice());
    if l.len() == 0 || l[0] == '#' {
        return None;
    }
    let (uri, name): (Vec<char>, Option<String>) = match split_once_chars(l.as_slice(), ' ') {
        Some((u, n)) => {
            let nt = trimmed(n.as_slice());
            (trimmed(u.as_slice()), Some(string_of(nt.as_slice())))
        },
        None => (l, None),
    };
    let uri_s = string_of(uri.as_slice());
    let path = decode_file_uri(uri_s.as_str())?;
    Some(Bookmark::for_path_with_name(path.as_str(), name, home))
}

/// The line for a bookmark: its URI, followed by its name when that is
/// non-empty and differs from the last path component.
pub open spec fn gtk_line(path: Seq<char>, name: Seq<char>) -> Seq<char> {
    let uri = ascii_chars(file_uri_bytes(encode_utf8(path)));
    if name.len() > 0 && name != last_segment(path, '/') {
        uri + seq![' '] + name
    } else {
        uri
    }
}

/// Format one `Bookmark` into a standard `~/.config/gtk-3.0/bookmarks` line.
pub fn format_gtk_bookmark_line(bookmark: &Bookmark) -> (r: String)
    ensures
        r@ == gtk_line(bookmark.path@, bookmark.name@),
{
    let uri = encode_file_uri(bookmark.path.as_str());
    let p = chars_of(bookmark.path.as_str());
    let default_name = last_segment_of(p.as_slice(), '/');
    let n = chars_of(bookmark.name.as_str());
    if n.len() > 0 && !eq_chars(n.as_slice(), default_name.as_slice()) {
        let mut out = chars_of(uri.as_str());
        out.push(' ');
        push_all(&mut out, n.as_slice());
        string_of(out.as_slice())
    } else {
        uri
    }
}

/// The labels of the six user-directory bookmarks, in sidebar order.
pub open spec fn user_dir_kind(i: int) -> BookmarkKind {
    if i == 0 {
        BookmarkKind::Desktop
    } else if i == 1 {
        BookmarkKind::Documents
    } else if i == 2 {
        BookmarkKind::Downloads
    } else if i == 3 {
        BookmarkKind::Music
    } else if i == 4 {
        BookmarkKind::Pictures
    } else {
        BookmarkKind::Videos
    }
}

pub open spec fn kind_label(k: BookmarkKind) -> Seq<char> {
    match k {
        BookmarkKind::Home => "Home"@,
        BookmarkKind::Desktop => "Desktop"@,
        BookmarkKind::Documents => "Documents"@,
        BookmarkKind::Downloads => "Downloads"@,
        BookmarkKind::Music => "Music"@,
        BookmarkKind::Pictures => "Pictures"@,
        BookmarkKind::Videos => "Videos"@,
        BookmarkKind::Folder => "Folder"@,
    }
}

fn user_dir_kind_exec(i: usize) -> (k: BookmarkKind)
    ensures
        k == user_dir_kind(i as int),
{
    if i == 0 {
        BookmarkKind::Desktop
    } else if i == 1 {
        BookmarkKind::Documents
    } else if i == 2 {
        BookmarkKind::Downloads
    } else if i == 3 {
        BookmarkKind::Music
    } else if i == 4 {
        BookmarkKind::Pictures
    } else {
        BookmarkKind::Videos
    }
}

fn kind_label_exec(k: BookmarkKind) -> (s: String)
    ensures
        s@ == kind_label(k),
{
    match k {
        BookmarkKind::Home => "Home".to_string(),
        BookmarkKind::Desktop => "Desktop".to_string(),
        BookmarkKind::Documents => "Documents".to_string(),
        BookmarkKind::Downloads => "Downloads".to_string(),
        BookmarkKind::Music => "Music".to_string(),
        BookmarkKind::Pictures => "Pictures".to_string(),
        BookmarkKind::Videos => "Videos".to_string(),
        BookmarkKind::Folder => "Folder".to_string(),
    }
}

/// The user-directory bookmarks from the resolved existing directories
/// (index `i` for the `i`-th kind of the sidebar order): a directory equal to
/// home, or already listed, is skipped.
pub open spec fn user_dir_marks(home: Seq<char>, dirs: Seq<Option<Seq<char>>>, i: int, acc: Seq<(Seq<char>, BookmarkKind)>) -> Seq<(Seq<char>, BookmarkKind)>
    decreases 6 - i,
{
    if i >= 6 || i < 0 {
        acc
    } else {
        let next = match (if i < dirs.len() { dirs[i] } else { None }) {
            Some(d) => if d != home && !(exists|k: int| 0 <= k < acc.len() && (#[trigger] acc[k]).0 == d) {
                acc.push((d, user_dir_kind(i)))
            } else {
                acc
            },
            None => acc,
        };
        user_dir_marks(home, dirs, i + 1, next)
    }
}

pub open spec fn mark_view(b: Bookmark) -> (Seq<char>, BookmarkKind) {
    (b.path@, b.kind)
}

/// The fixed bookmarks: home and the user directories that exist
/// (`user_dirs`, in the order Desktop, Documents, Downloads, Music,
/// Pictures, Videos).
pub fn standard_bookmarks(home: &str, user_dirs: &[Option<String>]) -> (out: Vec<Bookmark>)
    ensures
        out@.len() >= 1,
        out@[0].path@ == home@ && out@[0].kind == BookmarkKind::Home && out@[0].name@ == "Home"@,
        forall|k: int| 0 <= k < out@.len() ==> (#[trigger] out@[k]).pinned,
        forall|k: int| 0 < k < out@.len() ==> (#[trigger] out@[k]).name@ == kind_label(out@[k].kind),
        out@.skip(1).map_values(|b: Bookmark| mark_view(b)) == user_dir_marks(
            home@,
            user_dirs@.map_values(|d: Option<String>| match d {
                Some(s) => Some(s@),
                None => None,
            }),
            0,
            Seq::empty(),
        ),
{
    let ghost dv = user_dirs@.map_values(|d: Option<String>| match d {
        Some(s) => Some(s@),
        None => None,
    });
    let mut out: Vec<Bookmark> = Vec::new();
    out.push(Bookmark { name: "Home".to_string(), path: home.to_string(), kind: BookmarkKind::Home, pinned: true });
    let mut i: usize = 0;
    assert(out@.skip(1).map_values(|b: Bookmark| mark_view(b)) =~= Seq::<(Seq<char>, BookmarkKind)>::empty());
    while i < 6
        invariant
            i <= 6,
            out@.len() >= 1,
            dv == user_dirs@.map_values(|d: Option<String>| match d {
                Some(s) => Some(s@),
                None => None,
            }),
            out@[0].path@ == home@ && out@[0].kind == BookmarkKind::Home && out@[0].name@ == "Home"@,
            forall|k: int| 0 <= k < out@.len() ==> (#[trigger] out@[k]).pinned,
            forall|k: int| 0 < k < out@.len() ==> (#[trigger] out@[k]).name@ == kind_label(out@[k].kind),
            user_dir_marks(home@, dv, i as int, out@.skip(1).map_values(|b: Bookmark| mark_view(b)))
                == user_dir_marks(home@, dv, 0, Seq::empty()),
        decreases 6 - i,
    {
        let ghost acc = out@.skip(1).map_values(|b: Bookmark| mark_view(b));
        if i < user_dirs.len() {
            if let Some(d) = &user_dirs[i] {
                let mut dup = str_eq(d.as_str(), home);
                let mut k: usize = 1;
                while k < out.len()
                    invariant
                        1 <= k <= out@.len(),
                        acc == out@.skip(1).map_values(|b: Bookmark| mark_view(b)),
                        dup == (d@ == home@ || exists|j: int| 0 <= j < k - 1 && (#[trigger] acc[j]).0 == d@),
                    decreases out.len() - k,
                {
                    if str_eq(out[k].path.as_str(), d.as_str()) {
                        dup = true;
                    }
                    proof {
                        assert(acc[k - 1] == mark_view(out@[k as int]));
                    }
                    k = k + 1;
                }
                if !dup {
                    let kind = user_dir_kind_exec(i);
                    out.push(Bookmark { name: kind_label_exec(kind), path: d.clone(), kind, pinned: true });
                    assert(out@.skip(1).map_values(|b: Bookmark| mark_view(b)) =~= acc.push((d@, user_dir_kind(i as int))));
                }
            }
        }
        i = i + 1;
    }
    assert(user_dir_marks(home@, dv, 6, out@.skip(1).map_values(|b: Bookmark| mark_view(b))) == out@.skip(1).map_values(|b: Bookmark| mark_view(b)));
    out
}

} // verus!
verus! {

/// One `KEY="value"` line of `user-dirs.dirs`: comments and lines without
/// `=` are skipped; quotes are stripped and `$HOME` expanded.
pub open spec fn user_dirs_line(line: Seq<char>, home: Seq<char>) -> Option<(Seq<char>, Seq<char>)> {
    let l = trim(line);
    if l.len() > 0 && l[0] == '#' {
        None
    } else {
        match split_once(l, '=') {
            None => None,
            Some((k, v)) => {
                let v2 = trim_matches(trim(v), '"');
                let value = if is_prefix("$HOME/"@, v2) {
                    join_spec(home, v2.skip(6))
                } else if v2 == "$HOME"@ {
                    home
                } else {
                    v2
                };
                Some((trim(k), value))
            },
        }
    }
}

pub open spec fn user_dirs_step(home: Seq<char>) -> spec_fn(Seq<(Seq<char>, Seq<char>)>, Seq<char>) -> Seq<(Seq<char>, Seq<char>)> {
    |acc: Seq<(Seq<char>, Seq<char>)>, line: Seq<char>| match user_dirs_line(line, home) {
        Some(p) => acc.push(p),
        None => acc,
    }
}

/// All `(KEY, value)` pairs of a `user-dirs.dirs` file, in order.
pub open spec fn parse_user_dirs_spec(content: Seq<char>, home: Seq<char>) -> Seq<(Seq<char>, Seq<char>)> {
    lines(content).fold_left(Seq::empty(), user_dirs_step(home))
}

fn user_dirs_line_exec(line: &[char], home: &[char]) -> (r: Option<(Vec<char>, Vec<char>)>)
    ensures
        match r {
            Some((k, v)) => user_dirs_line(line@, home@) == Some((k@, v@)),
            None => user_dirs_line(line@, home@) is None,
        },
{
    let l = trimmed(line);
    if l.len() > 0 && l[0] == '#' {
        return None;
    }
    match split_once_chars(l.as_slice(), '=') {
        None => None,
        Some((k, v)) => {
            let vt = trimmed(v.as_slice());
            let v2 = trim_matches_chars(vt.as_slice(), '"');
            proof {
                reveal_strlit("$HOME/");
            }
            let value = if starts_with(v2.as_slice(), chars_of("$HOME/").as_slice()) {
                let rest = slice_to_vec(v2.as_slice(), 6, v2.len());
                assert(rest@ =~= v2@.skip(6));
                join_chars(home, rest.as_slice())
            } else if eq_chars(v2.as_slice(), chars_of("$HOME").as_slice()) {
                slice_to_vec(home, 0, home.len())
            } else {
                v2
            };
            assert(home@.subrange(0, home@.len() as int) =~= home@);
            Some((trimmed(k.as_slice()), value))
        },
    }
}

/// Parse `user-dirs.dirs` content into `(KEY, path)` pairs.
pub fn parse_user_dirs(content: &str, home: &str) -> (r: Vec<(String, String)>)
    ensures
        r@.map_values(|p: (String, String)| (p.0@, p.1@)) == parse_user_dirs_spec(content@, home@),
{
    let c = chars_of(content);
    let h = chars_of(home);
    let ls = split_lines(c.as_slice());
    let ghost lv = ls@.map_values(|l: Vec<char>| l@);
    let mut out: Vec<(String, String)> = Vec::new();
    let mut k: usize = 0;
    assert(lv.take(0) =~= Seq::<Seq<char>>::empty());
    while k < ls.len()
        invariant
            k <= ls@.len(),
            lv == ls@.map_values(|l: Vec<char>| l@),
            lv == lines(c@),
            c@ == content@,
            h@ == home@,
            out@.map_values(|p: (String, String)| (p.0@, p.1@)) == lv.take(k as int).fold_left(
                Seq::empty(),
                user_dirs_step(home@),
            ),
        decreases ls.len() - k,
    {
        let ghost prev = out@.map_values(|p: (String, String)| (p.0@, p.1@));
        assert(lv.take(k + 1).drop_last() =~= lv.take(k as int));
        match user_dirs_line_exec(ls[k].as_slice(), h.as_slice()) {
            Some((key, value)) => {
                out.push((string_of(key.as_slice()), string_of(value.as_slice())));
                assert(out@.map_values(|p: (String, String)| (p.0@, p.1@)) =~= prev.push((key@, value@)));
            },
            None => {},
        }
        k = k + 1;
    }
    assert(lv.take(ls@.len() as int) =~= lv);
    out
}

/// The first value recorded for `key`.
pub open spec fn lookup(cfg: Seq<(Seq<char>, Seq<char>)>, key: Seq<char>) -> Option<Seq<char>>
    decreases cfg.len(),
{
    if cfg.len() == 0 {
        None
    } else if cfg[0].0 == key {
        Some(cfg[0].1)
    } else {
        lookup(cfg.drop_first(), key)
    }
}

pub open spec fn user_dir_var(i: int) -> Seq<char> {
    if i == 0 {
        "XDG_DESKTOP_DIR"@
    } else if i == 1 {
        "XDG_DOCUMENTS_DIR"@
    } else if i == 2 {
        "XDG_DOWNLOAD_DIR"@
    } else if i == 3 {
        "XDG_MUSIC_DIR"@
    } else if i == 4 {
        "XDG_PICTURES_DIR"@
    } else {
        "XDG_VIDEOS_DIR"@
    }
}

/// The directory for the `i`-th user-directory kind: the configured value,
/// else the English name under home.
pub open spec fn user_dir_candidate(home: Seq<char>, cfg: Seq<(Seq<char>, Seq<char>)>, i: int) -> Seq<char> {
    match lookup(cfg, user_dir_var(i)) {
        Some(v) => v,
        None => join_spec(home, kind_label(user_dir_kind(i))),
    }
}

fn lookup_exec(cfg: &[(String, String)], key: &str) -> (r: Option<String>)
    ensures
        match r {
            Some(v) => lookup(cfg@.map_values(|p: (String, String)| (p.0@, p.1@)), key@) == Some(v@),
            None => lookup(cfg@.map_values(|p: (String, String)| (p.0@, p.1@)), key@) is None,
        },
{
    let ghost cv = cfg@.map_values(|p: (String, String)| (p.0@, p.1@));
    let mut i: usize = 0;
    assert(cv.skip(0) =~= cv);
    while i < cfg.len()
        invariant
            i <= cfg@.len(),
            cv == cfg@.map_values(|p: (String, String)| (p.0@, p.1@)),
            lookup(cv.skip(i as int), key@) == lookup(cv, key@),
        decreases cfg.len() - i,
    {
        assert(cv.skip(i as int).drop_first() =~= cv.skip(i + 1));
        if str_eq(cfg[i].0.as_str(), key) {
            return Some(cfg[i].1.clone());
        }
        i = i + 1;
    }
    None
}

/// The six candidate user directories (Desktop, Documents, Downloads, Music,
/// Pictures, Videos) from the parsed `user-dirs.dirs` pairs.
pub fn user_dir_candidates(home: &str, configured: &[(String, String)]) -> (r: Vec<String>)
    ensures
        r@.len() == 6,
        forall|i: int| 0 <= i < 6 ==> (#[trigger] r@[i])@ == user_dir_candidate(
            home@,
            configured@.map_values(|p: (String, String)| (p.0@, p.1@)),
            i,
        ),
{
    let vars: [&str; 6] = [
        "XDG_DESKTOP_DIR",
        "XDG_DOCUMENTS_DIR",
        "XDG_DOWNLOAD_DIR",
        "XDG_MUSIC_DIR",
        "XDG_PICTURES_DIR",
        "XDG_VIDEOS_DIR",
    ];
    let mut out: Vec<String> = Vec::new();
    let mut i: usize = 0;
    while i < 6
        invariant
            i <= 6,
            out@.len() == i,
            vars@.len() == 6,
            vars@[0]@ == "XDG_DESKTOP_DIR"@,
            vars@[1]@ == "XDG_DOCUMENTS_DIR"@,
            vars@[2]@ == "XDG_DOWNLOAD_DIR"@,
            vars@[3]@ == "XDG_MUSIC_DIR"@,
            vars@[4]@ == "XDG_PICTURES_DIR"@,
            vars@[5]@ == "XDG_VIDEOS_DIR"@,
            forall|j: int| 0 <= j < i ==> (#[trigger] out@[j])@ == user_dir_candidate(
                home@,
                configured@.map_values(|p: (String, String)| (p.0@, p.1@)),
                j,
            ),
        decreases 6 - i,
    {
        let dir = match lookup_exec(configured, vars[i]) {
            Some(v) => v,
            None => {
                let label = kind_label_exec(user_dir_kind_exec(i));
                crate::engine::path::join(home, label.as_str())
            },
        };
        out.push(dir);
        i = i + 1;
    }
    out
}

/// The URI text of a path: no whitespace anywhere, and it starts with `f`.
pub proof fn lemma_uri_text(path: Seq<char>)
    ensures
        ({
            let u = ascii_chars(file_uri_bytes(encode_utf8(path)));
            &&& u.len() >= 7
            &&& u[0] == 'f'
            &&& forall|i: int| 0 <= i < u.len() ==> !crate::text::is_ws(#[trigger] u[i])
            &&& decode_uri_text(u) == Some(path)
        }),
{
    let b = encode_utf8(path);
    let ub = file_uri_bytes(b);
    let u = ascii_chars(ub);
    crate::xdg::uri::lemma_encode_ascii(b);
    assert forall|i: int| 0 <= i < u.len() implies !crate::text::is_ws(#[trigger] u[i]) by {
        if i >= 7 {
            assert(ub[i] == crate::xdg::uri::pct_encode(b)[i - 7]);
        }
        assert(ub[i] < 0x80);
        assert(u[i] == ub[i] as char);
    }
    crate::xdg::uri::lemma_uri_string_bytes(b);
    assert(ub.take(7) =~= file_scheme());
    assert(ub.skip(7) =~= crate::xdg::uri::pct_encode(b));
    crate::xdg::uri::lemma_decode_encode(b);
    vstd::utf8::encode_utf8_valid_utf8(path);
    vstd::utf8::encode_utf8_decode_utf8(path);
}

/// A formatted bookmark line reads back as its URI (which decodes to the
/// bookmark's path) and its custom name, when the name has no surrounding
/// whitespace; a name that is empty or the path's last component is left out.
pub proof fn law_gtk_line_roundtrip(path: Seq<char>, name: Seq<char>)
    requires
        trim(name) == name,
    ensures
        ({
            let u = ascii_chars(file_uri_bytes(encode_utf8(path)));
            &&& gtk_line_parts(gtk_line(path, name)) == Some((u, if name.len() > 0 && name != last_segment(path, '/') {
                Some(name)
            } else {
                None
            }))
            &&& decode_uri_text(u) == Some(path)
        }),
{
    lemma_uri_text(path);
    let u = ascii_chars(file_uri_bytes(encode_utf8(path)));
    crate::text::lemma_trim_noop(u);
    assert forall|i: int| 0 <= i < u.len() implies u[i] != ' ' by {
        assert(!crate::text::is_ws(u[i]));
    }
    if name.len() > 0 && name != last_segment(path, '/') {
        let l = u + seq![' '] + name;
        crate::text::lemma_trimmed_ends(name);
        assert(l[0] == 'f');
        assert(l.last() == name.last());
        crate::text::lemma_trim_noop(l);
        assert forall|i: int| 0 <= i < u.len() implies l[i] != ' ' by {
            assert(l[i] == u[i]);
        }
        assert(l[u.len() as int] == ' ');
        crate::text::lemma_find_from_unique(l, ' ', 0, u.len() as int);
        assert(l.subrange(0, u.len() as int) =~= u);
        assert(l.subrange(u.len() + 1int, l.len() as int) =~= name);
    } else {
        crate::text::lemma_find_from_unique(u, ' ', 0, u.len() as int);
    }
}

} // verus!
