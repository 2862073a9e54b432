//! Icons for listing rows and sidebar bookmarks.
use vstd::prelude::*;

use crate::arca_core::bookmarks::BookmarkKind;
use crate::engine::entry::{Entry, FileType};
use crate::text::{ascii_lower_seq, chars_of, rfind, rfind_char, slice_to_vec, str_eq, string_of};

verus! {

/// The bundled icon images.
#[derive(Clone, Copy, Debug, PartialEq, Eq, Structural)]
pub enum AssetId {
    AlertCircle,
    Aperture,
    Archive,
    ArrowLeft,
    ArrowRight,
    ArrowUp,
    ChevronDown,
    ChevronRight,
    ChevronUp,
    Code,
    Columns,
    Download,
    Eye,
    EyeOff,
    File,
    FileText,
    Film,
    Folder,
    GitBranch,
    Grid,
    Home,
    Image,
    Link2,
    List,
    Monitor,
    Moon,
    Music,
    Plus,
    RefreshCw,
    Search,
    Settings,
    StarRounded,
    StarRoundedFilled,
    Sun,
    Terminal,
    X,
}

/// The icon for a lower-case file extension.
pub open spec fn ext_icon(ext: Seq<char>) -> AssetId {
    if ext == "png"@ || ext == "jpg"@ || ext == "jpeg"@ || ext == "gif"@ || ext == "bmp"@ || ext == "svg"@ || ext == "webp"@ || ext == "ico"@ {
        AssetId::Image
    } else if ext == "mp3"@ || ext == "wav"@ || ext == "ogg"@ || ext == "flac"@ || ext == "aac"@ || ext == "m4a"@ || ext == "wma"@ {
        AssetId::Music
    } else if ext == "mp4"@ || ext == "avi"@ || ext == "mkv"@ || ext == "mov"@ || ext == "wmv"@ || ext == "flv"@ || ext == "webm"@ {
        AssetId::Film
    } else if ext == "zip"@ || ext == "tar"@ || ext == "gz"@ || ext == "bz2"@ || ext == "xz"@ || ext == "7z"@ || ext == "rar"@ {
        AssetId::Archive
    } else if ext == "c"@ || ext == "h"@ || ext == "cpp"@ || ext == "hpp"@ || ext == "py"@ || ext == "js"@ || ext == "ts"@ || ext == "rs"@ || ext == "go"@ || ext == "java"@ {
        AssetId::Code
    } else if ext == "sh"@ || ext == "bash"@ || ext == "zsh"@ || ext == "fish"@ {
        AssetId::Terminal
    } else if ext == "txt"@ || ext == "md"@ || ext == "org"@ || ext == "rst"@ || ext == "pdf"@ || ext == "doc"@ || ext == "docx"@ || ext == "json"@ || ext == "xml"@ || ext == "yaml"@ || ext == "yml"@ || ext == "toml"@ || ext == "ini"@ || ext == "cfg"@ || ext == "conf"@ || ext == "log"@ {
        AssetId::FileText
    } else {
        AssetId::File
    }
}

fn ext_icon_exec(e: &str) -> (r: AssetId)
    ensures
        r == ext_icon(e@),
{
    if str_eq(e, "png") || str_eq(e, "jpg") || str_eq(e, "jpeg") || str_eq(e, "gif") || str_eq(e, "bmp") || str_eq(e, "svg") || str_eq(e, "webp") || str_eq(e, "ico") {
        AssetId::Image
    } else if str_eq(e, "mp3") || str_eq(e, "wav") || str_eq(e, "ogg") || str_eq(e, "flac") || str_eq(e, "aac") || str_eq(e, "m4a") || str_eq(e, "wma") {
        AssetId::Music
    } else if str_eq(e, "mp4") || str_eq(e, "avi") || str_eq(e, "mkv") || str_eq(e, "mov") || str_eq(e, "wmv") || str_eq(e, "flv") || str_eq(e, "webm") {
        AssetId::Film
    } else if str_eq(e, "zip") || str_eq(e, "tar") || str_eq(e, "gz") || str_eq(e, "bz2") || str_eq(e, "xz") || str_eq(e, "7z") || str_eq(e, "rar") {
        AssetId::Archive
    } else if str_eq(e, "c") || str_eq(e, "h") || str_eq(e, "cpp") || str_eq(e, "hpp") || str_eq(e, "py") || str_eq(e, "js") || str_eq(e, "ts") || str_eq(e, "rs") || str_eq(e, "go") || str_eq(e, "java") {
        AssetId::Code
    } else if str_eq(e, "sh") || str_eq(e, "bash") || str_eq(e, "zsh") || str_eq(e, "fish") {
        AssetId::Terminal
    } else if str_eq(e, "txt") || str_eq(e, "md") || str_eq(e, "org") || str_eq(e, "rst") || str_eq(e, "pdf") || str_eq(e, "doc") || str_eq(e, "docx") || str_eq(e, "json") || str_eq(e, "xml") || str_eq(e, "yaml") || str_eq(e, "yml") || str_eq(e, "toml") || str_eq(e, "ini") || str_eq(e, "cfg") || str_eq(e, "conf") || str_eq(e, "log") {
        AssetId::FileText
    } else {
        AssetId::File
    }
}

/// What follows the last `.` of `s`, or all of `s` without a dot.
pub open spec fn after_last_dot(s: Seq<char>) -> Seq<char> {
    match rfind(s, '.') {
        Some(i) => s.skip(i + 1),
        None => s,
    }
}

/// The icon for a file named `name`, by its lower-cased extension; a name
/// without a dot gets the plain file icon.
pub open spec fn file_icon_spec(name: Seq<char>) -> AssetId {
    let lower = ascii_lower_seq(name);
    let ext = after_last_dot(lower);
    if ext == lower {
        AssetId::File
    } else {
        ext_icon(ext)
    }
}

fn file_icon(name: &str) -> (r: AssetId)
    ensures
        r == file_icon_spec(name@),
{
    let nc = chars_of(name);
    let lower = crate::lantern::chooser::lower_chars(nc.as_slice());
    let n = lower.len();
    let ext = match rfind_char(lower.as_slice(), '.') {
        Some(i) => {
            proof {
                crate::text::lemma_rfind(lower@, '.');
            }
            let e = slice_to_vec(lower.as_slice(), i + 1, n);
            assert(e@ =~= lower@.skip(i + 1));
            e
        },
        None => {
            let e = slice_to_vec(lower.as_slice(), 0, n);
            assert(e@ =~= lower@);
            e
        },
    };
    if crate::text::eq_chars(ext.as_slice(), lower.as_slice()) {
        return AssetId::File;
    }
    let es = string_of(ext.as_slice());
    ext_icon_exec(es.as_str())
}

/// The icon for a directory named `name`: the user directories and a few
/// well-known dot directories have their own.
pub open spec fn dir_icon_spec(name: Seq<char>) -> AssetId {
    if name == "Desktop"@ {
        AssetId::Monitor
    } else if name == "Documents"@ {
        AssetId::FileText
    } else if name == "Downloads"@ {
        AssetId::Download
    } else if name == "Music"@ {
        AssetId::Music
    } else if name == "Pictures"@ {
        AssetId::Image
    } else if name == "Videos"@ {
        AssetId::Film
    } else if name == ".git"@ {
        AssetId::GitBranch
    } else if name == ".config"@ {
        AssetId::Settings
    } else {
        AssetId::Folder
    }
}

fn dir_icon(name: &str) -> (r: AssetId)
    ensures
        r == dir_icon_spec(name@),
{
    if str_eq(name, "Desktop") {
        AssetId::Monitor
    } else if str_eq(name, "Documents") {
        AssetId::FileText
    } else if str_eq(name, "Downloads") {
        AssetId::Download
    } else if str_eq(name, "Music") {
        AssetId::Music
    } else if str_eq(name, "Pictures") {
        AssetId::Image
    } else if str_eq(name, "Videos") {
        AssetId::Film
    } else if str_eq(name, ".git") {
        AssetId::GitBranch
    } else if str_eq(name, ".config") {
        AssetId::Settings
    } else {
        AssetId::Folder
    }
}

/// The icon for a listing row: directories (and symlinks to directories) by
/// name, other symlinks a link, files by extension.
pub open spec fn entry_icon_spec(e: Entry) -> AssetId {
    match e.file_type {
        FileType::Directory => dir_icon_spec(e.name@),
        FileType::Symlink => if e.navigable {
            dir_icon_spec(e.name@)
        } else {
            AssetId::Link2
        },
        _ => file_icon_spec(e.name@),
    }
}

/// Icon for a directory entry.
pub fn entry_icon(e: &Entry) -> (r: AssetId)
    ensures
        r == entry_icon_spec(*e),
{
    match e.file_type {
        FileType::Directory => dir_icon(e.name.as_str()),
        FileType::Symlink => if e.navigable {
            dir_icon(e.name.as_str())
        } else {
            AssetId::Link2
        },
        _ => file_icon(e.name.as_str()),
    }
}

/// Icon for a sidebar bookmark.
pub fn bookmark_icon(kind: BookmarkKind) -> (r: AssetId)
    ensures
        r == match kind {
            BookmarkKind::Home => AssetId::Home,
            BookmarkKind::Desktop => AssetId::Monitor,
            BookmarkKind::Documents => AssetId::FileText,
            BookmarkKind::Downloads => AssetId::Download,
            BookmarkKind::Music => AssetId::Music,
            BookmarkKind::Pictures => AssetId::Image,
            BookmarkKind::Videos => AssetId::Film,
            BookmarkKind::Folder => AssetId::Folder,
        },
{
    match kind {
        BookmarkKind::Home => AssetId::Home,
        BookmarkKind::Desktop => AssetId::Monitor,
        BookmarkKind::Documents => AssetId::FileText,
        BookmarkKind::Downloads => AssetId::Download,
        BookmarkKind::Music => AssetId::Music,
        BookmarkKind::Pictures => AssetId::Image,
        BookmarkKind::Videos => AssetId::Film,
        BookmarkKind::Folder => AssetId::Folder,
    }
}

} // verus!
