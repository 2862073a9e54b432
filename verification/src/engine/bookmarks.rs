//! Sidebar bookmarks: the home directory, the XDG user directories
//! (Desktop, Downloads, …), the trash and user-pinned folders.
//!
//! Which directories exist is decided by the caller (filesystem access);
//! this module builds and classifies the bookmark list from plain values.
use vstd::prelude::*;
use vstd::utf8::{decode_utf8, encode_utf8, valid_utf8};

use crate::text::{
    chars_of, eq_chars, ends_with, is_prefix, is_suffix, last_segment, last_segment_of, push_all,
    split_once, split_once_chars, starts_with, str_eq, string_from_utf8_lossy, string_of, trim,
    trimmed, utf8_lossy,
};
use crate::xdg::uri::{ascii_chars, decode_uri, file_uri_bytes};

verus! {

/// Which fixed icon/label a bookmark maps to in the UI.
#[derive(Clone, Copy, PartialEq, Eq, Debug, Structural)]
pub enum BookmarkKind {
    Home,
    Desktop,
    Documents,
    Downloads,
    Music,
    Pictures,
    Videos,
    Trash,
    /// User-pinned or otherwise unrecognized folder.
    Folder,
}

/// Classification by the last path component.
pub open spec fn kind_for_name(name: Seq<char>) -> BookmarkKind {
    if name == "Desktop"@ {
        BookmarkKind::Desktop
    } else if name == "Documents"@ {
        BookmarkKind::Documents
    } else if name == "Downloads"@ {
        BookmarkKind::Downloads
    } else if name == "Music"@ {
        BookmarkKind::Music
    } else if name == "Pictures"@ {
        BookmarkKind::Pictures
    } else if name == "Videos"@ {
        BookmarkKind::Videos
    } else {
        BookmarkKind::Folder
    }
}

/// The home directory, a trash location, or the kind named by the last
/// path component.
pub open spec fn kind_spec(path: Seq<char>, home: Seq<char>) -> BookmarkKind {
    if path == home {
        BookmarkKind::Home
    } else if is_suffix("/Trash"@, path) || is_suffix("/Trash/files"@, path) || path == "trash:///"@ {
        BookmarkKind::Trash
    } else {
        kind_for_name(last_segment(path, '/'))
    }
}

fn kind_for_name_exec(name: &[char]) -> (k: BookmarkKind)
    ensures
        k == kind_for_name(name@),
{
    if eq_chars(name, chars_of("Desktop").as_slice()) {
        BookmarkKind::Desktop
    } else if eq_chars(name, chars_of("Documents").as_slice()) {
        BookmarkKind::Documents
    } else if eq_chars(name, chars_of("Downloads").as_slice()) {
        BookmarkKind::Downloads
    } else if eq_chars(name, chars_of("Music").as_slice()) {
        BookmarkKind::Music
    } else if eq_chars(name, chars_of("Pictures").as_slice()) {
        BookmarkKind::Pictures
    } else if eq_chars(name, chars_of("Videos").as_slice()) {
        BookmarkKind::Videos
    } else {
        BookmarkKind::Folder
    }
}

impl BookmarkKind {
    /// Classify a directory by its file name (`home` is the home directory).
    pub fn from_path(path: &str, home: &str) -> (k: BookmarkKind)
        ensures
            k == kind_spec(path@, home@),
    {
        let p = chars_of(path);
        if str_eq(path, home) {
            return BookmarkKind::Home;
        }
        if ends_with(p.as_slice(), chars_of("/Trash").as_slice()) || ends_with(
            p.as_slice(),
            chars_of("/Trash/files").as_slice(),
        ) || str_eq(path, "trash:///") {
            return BookmarkKind::Trash;
        }
        let name = last_segment_of(p.as_slice(), '/');
        kind_for_name_exec(name.as_slice())
    }
}

/// One sidebar entry.
#[derive(Clone, Debug)]
pub struct Bookmark {
    pub name: String,
    pub path: String,
    pub kind: BookmarkKind,
    /// XDG/home entries are fixed; user bookmarks can be removed.
    pub pinned: bool,
}

/// Display name: the custom one, else "Home" for the home directory, else
/// the last path component.
pub open spec fn bookmark_name(path: Seq<char>, custom: Option<Seq<char>>, home: Seq<char>) -> Seq<char> {
    match custom {
        Some(n) => n,
        None => if kind_spec(path, home) == BookmarkKind::Home {
            "Home"@
        } else {
            last_segment(path, '/')
        },
    }
}

impl Bookmark {
    pub fn for_path(path: &str, home: &str) -> (b: Bookmark)
        ensures
            b.path@ == path@,
            b.kind == kind_spec(path@, home@),
            b.name@ == bookmark_name(path@, None, home@),
            b.pinned,
    {
        Self::for_path_with_name(path, None, home)
    }

    pub fn for_path_with_name(path: &str, custom_name: Option<String>, home: &str) -> (b: Bookmark)
        ensures
            b.path@ == path@,
            b.kind == kind_spec(path@, home@),
            b.name@ == bookmark_name(
                path@,
                match custom_name {
                    Some(n) => Some(n@),
                    None => None,
                },
                home@,
            ),
            b.pinned,
    {
        let kind = BookmarkKind::from_path(path, home);
        let name = match custom_name {
            Some(n) => n,
            None => match kind {
                BookmarkKind::Home => "Home".to_string(),
                _ => {
                    let p = chars_of(path);
                    let seg = last_segment_of(p.as_slice(), '/');
                    string_of(seg.as_slice())
                },
            },
        };
        Bookmark { name, path: path.to_string(), kind, pinned: true }
    }
}

/// Decoding of a `file://` URI into a displayable path: the decoded bytes
/// as text, invalid UTF-8 replaced.
pub open spec fn decode_uri_text(uri: Seq<char>) -> Option<Seq<char>> {
    match decode_uri(encode_utf8(uri)) {
        Some(b) => Some(
            if valid_utf8(b) {
                decode_utf8(b)
            } else {
                utf8_lossy(b)
            },
        ),
        None => None,
    }
}

/// The URI text of an absolute path has no whitespace, starts with `f`, and
/// decodes back to the path.
pub proof fn lemma_uri_text(path: Seq<char>)
    requires
        path.len() > 0,
        path[0] == '/',
    ensures
        ({
            let u = ascii_chars(file_uri_bytes(encode_utf8(path)));
            &&& u.len() >= 7
            &&& u[0] == 'f'
            &&& forall|i: int| 0 <= i < u.len() ==> !crate::text::is_ws(#[trigger] u[i])
            &&& decode_uri_text(u) == Some(path)
        }),
{
    let b = encode_utf8(path);
    let ub = file_uri_bytes(b);
    let u = ascii_chars(ub);
    crate::xdg::uri::lemma_encode_ascii(b);
    assert forall|i: int| 0 <= i < u.len() implies !crate::text::is_ws(#[trigger] u[i]) by {
        if i >= 7 {
            assert(ub[i] == crate::xdg::uri::pct_encode(b)[i - 7]);
        }
        assert(ub[i] < 0x80);
        assert(u[i] == ub[i] as char);
    }
    assert(b[0] == 0x2f) by {
        let v: u32 = path[0] as u32;
        assert(v == 0x2f);
        assert((v & 0x7F) as u8 == 0x2fu8) by (bit_vector)
            requires
                v == 0x2f,
        ;
        assert(vstd::utf8::encode_scalar(v) =~= seq![0x2fu8]);
    }
    crate::xdg::uri::law_file_uri_roundtrip(b);
    vstd::utf8::encode_utf8_valid_utf8(path);
    vstd::utf8::encode_utf8_decode_utf8(path);
}

/// Decode a `file://...` URI with percent-encoding into a local file path.
pub fn decode_file_uri(uri: &str) -> (r: Option<String>)
    ensures
        match r {
            Some(p) => decode_uri_text(uri@) == Some(p@),
            None => decode_uri_text(uri@) is None,
        },
        r matches Some(p) ==> (decode_uri(encode_utf8(uri@)) matches Some(b) && (valid_utf8(b)
            ==> p@ == decode_utf8(b))),
{
    match crate::xdg::uri::decode_file_uri(uri) {
        Some(bytes) => Some(string_from_utf8_lossy(bytes.as_slice())),
        None => None,
    }
}

/// Encode a local file path into a standard `file://...` URI.
pub fn encode_file_uri(path: &str) -> (r: String)
    ensures
        r@ == ascii_chars(file_uri_bytes(encode_utf8(path@))),
{
    crate::xdg::uri::encode_file_uri(path)
}

/// The uri and optional name of a bookmark line: the trimmed line split at
/// its first space (both halves trimmed); `None` for blank and comment lines.
pub open spec fn gtk_line_parts(line: Seq<char>) -> Option<(Seq<char>, Option<Seq<char>>)> {
    let l = trim(line);
    if l.len() == 0 || l[0] == '#' {
        None
    } else {
        match split_once(l, ' ') {
            Some((u, n)) => Some((trim(u), Some(trim(n)))),
            None => Some((l, None)),
        }
    }
}

/// Parse one line of `~/.config/gtk-3.0/bookmarks` (Freedesktop/XDG standard).
pub fn parse_gtk_bookmark_line(line: &str, home: &str) -> (r: Option<Bookmark>)
    ensures
        match r {
            Some(b) => gtk_line_parts(line@) matches Some((u, n)) && decode_uri_text(u) == Some(
                b.path@,
            ) && b.name@ == bookmark_name(b.path@, n, home@) && b.kind == kind_spec(
                b.path@,
                home@,
            ) && b.pinned,
            None => match gtk_line_parts(line@) {
                Some((u, n)) => decode_uri_text(u) is None,
                None => true,
            },
        },
{
    let lc = chars_of(line);
    let l = trimmed(lc.as_slice());
    if l.len() == 0 || l[0] == '#' {
        return None;
    }
    let (uri, name): (Vec<char>, Option<String>) = match split_once_chars(l.as_slice(), ' ') {
        Some((u, n)) => {
            let nt = trimmed(n.as_slice());
            (trimmed(u.as_slice()), Some(string_of(nt.as_slice())))
        },
        None => (l, None),
    };
    let uri_s = string_of(uri.as_slice());
    let path = decode_file_uri(uri_s.as_str())?;
    Some(Bookmark::for_path_with_name(path.as_str(), name, home))
}

/// The line for a bookmark: its URI, followed by its name when that is
/// non-empty and differs from the last path component.
pub open spec fn gtk_line(path: Seq<char>, name: Seq<char>) -> Seq<char> {
    let uri = ascii_chars(file_uri_bytes(encode_utf8(path)));
    if name.len() > 0 && name != last_segment(path, '/') {
        uri + seq![' '] + name
    } else {
        uri
    }
}

/// Format one `Bookmark` into a standard `~/.config/gtk-3.0/bookmarks` line.
pub fn format_gtk_bookmark_line(bookmark: &Bookmark) -> (r: String)
    ensures
        r@ == gtk_line(bookmark.path@, bookmark.name@),
{
    let uri = encode_file_uri(bookmark.path.as_str());
    let p = chars_of(bookmark.path.as_str());
    let default_name = last_segment_of(p.as_slice(), '/');
    let n = chars_of(bookmark.name.as_str());
    if n.len() > 0 && !eq_chars(n.as_slice(), default_name.as_slice()) {
        let mut out = chars_of(uri.as_str());
        out.push(' ');
        push_all(&mut out, n.as_slice());
        string_of(out.as_slice())
    } else {
        uri
    }
}

/// The labels of the six user-directory bookmarks, in sidebar order.
pub open spec fn user_dir_kind(i: int) -> BookmarkKind {
    if i == 0 {
        BookmarkKind::Desktop
    } else if i == 1 {
        BookmarkKind::Documents
    } else if i == 2 {
        BookmarkKind::Downloads
    } else if i == 3 {
        BookmarkKind::Music
    } else if i == 4 {
        BookmarkKind::Pictures
    } else {
        BookmarkKind::Videos
    }
}

pub open spec fn kind_label(k: BookmarkKind) -> Seq<char> {
    match k {
        BookmarkKind::Home => "Home"@,
        BookmarkKind::Desktop => "Desktop"@,
        BookmarkKind::Documents => "Documents"@,
        BookmarkKind::Downloads => "Downloads"@,
        BookmarkKind::Music => "Music"@,
        BookmarkKind::Pictures => "Pictures"@,
        BookmarkKind::Videos => "Videos"@,
        BookmarkKind::Trash => "Trash"@,
        BookmarkKind::Folder => "Folder"@,
    }
}

fn user_dir_kind_exec(i: usize) -> (k: BookmarkKind)
    ensures
        k == user_dir_kind(i as int),
{
    if i == 0 {
        BookmarkKind::Desktop
    } else if i == 1 {
        BookmarkKind::Documents
    } else if i == 2 {
        BookmarkKind::Downloads
    } else if i == 3 {
        BookmarkKind::Music
    } else if i == 4 {
        BookmarkKind::Pictures
    } else {
        BookmarkKind::Videos
    }
}

fn kind_label_exec(k: BookmarkKind) -> (s: String)
    ensures
        s@ == kind_label(k),
{
    match k {
        BookmarkKind::Home => "Home".to_string(),
        BookmarkKind::Desktop => "Desktop".to_string(),
        BookmarkKind::Documents => "Documents".to_string(),
        BookmarkKind::Downloads => "Downloads".to_string(),
        BookmarkKind::Music => "Music".to_string(),
        BookmarkKind::Pictures => "Pictures".to_string(),
        BookmarkKind::Videos => "Videos".to_string(),
        BookmarkKind::Trash => "Trash".to_string(),
        BookmarkKind::Folder => "Folder".to_string(),
    }
}

/// The user-directory bookmarks from the resolved existing directories
/// (index `i` for the `i`-th kind of the sidebar order): a directory equal to
/// home, or already listed, is skipped.
pub open spec fn user_dir_marks(home: Seq<char>, dirs: Seq<Option<Seq<char>>>, i: int, acc: Seq<(Seq<char>, BookmarkKind)>) -> Seq<(Seq<char>, BookmarkKind)>
    decreases 6 - i,
{
    if i >= 6 || i < 0 {
        acc
    } else {
        let next = match (if i < dirs.len() { dirs[i] } else { None }) {
            Some(d) => if d != home && !(exists|k: int| 0 <= k < acc.len() && (#[trigger] acc[k]).0 == d) {
                acc.push((d, user_dir_kind(i)))
            } else {
                acc
            },
            None => acc,
        };
        user_dir_marks(home, dirs, i + 1, next)
    }
}

pub open spec fn mark_view(b: Bookmark) -> (Seq<char>, BookmarkKind) {
    (b.path@, b.kind)
}

/// The fixed bookmarks: home, the user directories that exist (`user_dirs`,
/// Desktop, Documents, Downloads, Music, Pictures, Videos) and the trash.
pub fn standard_bookmarks(home: &str, user_dirs: &[Option<String>], trash_root: &str) -> (out: Vec<Bookmark>)
    ensures
        out@.len() >= 2,
        out@[0].path@ == home@ && out@[0].kind == BookmarkKind::Home && out@[0].name@ == "Home"@,
        out@.last().path@ == trash_root@ && out@.last().kind == BookmarkKind::Trash
            && out@.last().name@ == "Trash"@,
        forall|k: int| 0 <= k < out@.len() ==> (#[trigger] out@[k]).pinned,
        forall|k: int| 0 < k < out@.len() - 1 ==> (#[trigger] out@[k]).name@ == kind_label(out@[k].kind),
        out@.subrange(1, out@.len() - 1).map_values(|b: Bookmark| mark_view(b)) == user_dir_marks(
            home@,
            user_dirs@.map_values(|d: Option<String>| match d {
                Some(s) => Some(s@),
                None => None,
            }),
            0,
            Seq::empty(),
        ),
{
    let ghost dv = user_dirs@.map_values(|d: Option<String>| match d {
        Some(s) => Some(s@),
        None => None,
    });
    let mut out: Vec<Bookmark> = Vec::new();
    out.push(Bookmark { name: "Home".to_string(), path: home.to_string(), kind: BookmarkKind::Home, pinned: true });
    let mut i: usize = 0;
    assert(out@.skip(1).map_values(|b: Bookmark| mark_view(b)) =~= Seq::<(Seq<char>, BookmarkKind)>::empty());
    while i < 6
        invariant
            i <= 6,
            out@.len() >= 1,
            dv == user_dirs@.map_values(|d: Option<String>| match d {
                Some(s) => Some(s@),
                None => None,
            }),
            out@[0].path@ == home@ && out@[0].kind == BookmarkKind::Home && out@[0].name@ == "Home"@,
            forall|k: int| 0 <= k < out@.len() ==> (#[trigger] out@[k]).pinned,
            forall|k: int| 0 < k < out@.len() ==> (#[trigger] out@[k]).name@ == kind_label(out@[k].kind),
            user_dir_marks(home@, dv, i as int, out@.skip(1).map_values(|b: Bookmark| mark_view(b)))
                == user_dir_marks(home@, dv, 0, Seq::empty()),
        decreases 6 - i,
    {
        let ghost acc = out@.skip(1).map_values(|b: Bookmark| mark_view(b));
        if i < user_dirs.len() {
            if let Some(d) = &user_dirs[i] {
                let mut dup = str_eq(d.as_str(), home);
                let mut k: usize = 1;
                while k < out.len()
                    invariant
                        1 <= k <= out@.len(),
                        acc == out@.skip(1).map_values(|b: Bookmark| mark_view(b)),
                        dup == (d@ == home@ || exists|j: int| 0 <= j < k - 1 && (#[trigger] acc[j]).0 == d@),
                    decreases out.len() - k,
                {
                    if str_eq(out[k].path.as_str(), d.as_str()) {
                        dup = true;
                    }
                    proof {
                        assert(acc[k - 1] == mark_view(out@[k as int]));
                    }
                    k = k + 1;
                }
                if !dup {
                    let kind = user_dir_kind_exec(i);
                    out.push(Bookmark { name: kind_label_exec(kind), path: d.clone(), kind, pinned: true });
                    assert(out@.skip(1).map_values(|b: Bookmark| mark_view(b)) =~= acc.push((d@, user_dir_kind(i as int))));
                }
            }
        }
        i = i + 1;
    }
    assert(user_dir_marks(home@, dv, 6, out@.skip(1).map_values(|b: Bookmark| mark_view(b))) == out@.skip(1).map_values(|b: Bookmark| mark_view(b)));
    let ghost mid = out@;
    out.push(Bookmark { name: "Trash".to_string(), path: trash_root.to_string(), kind: BookmarkKind::Trash, pinned: true });
    assert(out@.subrange(1, out@.len() - 1) =~= mid.skip(1));
    out
}

} // verus!
