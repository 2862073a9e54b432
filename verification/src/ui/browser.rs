//! Decisions of the browser window that do not draw: tab titles, which
//! files get thumbnails, the context menu's items and what "Restore" in the
//! trash refers to.
use vstd::prelude::*;

use crate::engine::entry::Entry;
use crate::engine::format::{dec, decimal, format_size, size_text};
use crate::engine::path::{file_name_chars, file_name_or_empty, file_name_spec, file_name_text};
use crate::lantern::chooser::lower_chars;
use crate::text::{
    ascii_lower_seq, push_all, chars_of, contains_chars, contains_sub, eq_chars, last_segment,
    last_segment_of, push_str, str_eq, string_of,
};
use crate::xdg::trash::TrashItem;

verus! {

/// A tab's title: the last component of its directory, or `/`.
pub open spec fn tab_title_spec(cwd: Seq<char>) -> Seq<char> {
    let n = file_name_or_empty(cwd);
    if n.len() > 0 {
        n
    } else {
        "/"@
    }
}

/// The title of a tab showing `cwd` (see [`tab_title_spec`]).
pub fn tab_title(cwd: &str) -> (r: String)
    ensures
        r@ == tab_title_spec(cwd@),
{
    let n = file_name_text(cwd);
    if chars_of(n.as_str()).len() > 0 {
        n
    } else {
        "/".to_string()
    }
}

/// Whether a thumbnail can be made for a file named `name`: the text after
/// its last dot, ASCII-lower-cased, is `flac`, `mp3`, `png`, `jpg` or
/// `jpeg` (a name without a dot has none).
pub open spec fn is_thumbable_spec(name: Seq<char>) -> bool {
    let lower = ascii_lower_seq(name);
    let ext = last_segment(lower, '.');
    ext != lower && (ext == "flac"@ || ext == "mp3"@ || ext == "png"@ || ext == "jpg"@ || ext
        == "jpeg"@)
}

/// Whether a thumbnail can be made for `name` (see [`is_thumbable_spec`]).
pub fn is_thumbable(name: &str) -> (r: bool)
    ensures
        r == is_thumbable_spec(name@),
{
    let c = chars_of(name);
    let lower = lower_chars(c.as_slice());
    let ext = last_segment_of(lower.as_slice(), '.');
    if eq_chars(ext.as_slice(), lower.as_slice()) {
        return false;
    }
    eq_chars(ext.as_slice(), chars_of("flac").as_slice()) || eq_chars(
        ext.as_slice(),
        chars_of("mp3").as_slice(),
    ) || eq_chars(ext.as_slice(), chars_of("png").as_slice()) || eq_chars(
        ext.as_slice(),
        chars_of("jpg").as_slice(),
    ) || eq_chars(ext.as_slice(), chars_of("jpeg").as_slice())
}

/// The total of `sizes`.
pub open spec fn total(sizes: Seq<u64>) -> nat
    decreases sizes.len(),
{
    if sizes.len() == 0 {
        0
    } else {
        total(sizes.drop_last()) + sizes.last() as nat
    }
}

/// The left part of the status bar: how many items the folder has (and how
/// many the filter shows), then the selection: its count and total size
/// when several items are selected, else the selected item's name.
pub open spec fn status_summary_spec(
    all: nat,
    shown: nat,
    unavailable: bool,
    filtered: bool,
    sizes: Seq<u64>,
    name: Option<Seq<char>>,
) -> Seq<char> {
    let head = if unavailable {
        "Folder unavailable"@
    } else if !filtered {
        dec(all) + " items"@
    } else {
        dec(shown) + " of "@ + dec(all) + " items"@
    };
    if sizes.len() > 1 {
        head + "  \u{b7}  "@ + dec(sizes.len()) + " items selected ("@ + size_text(total(sizes)) + ")"@
    } else {
        match name {
            Some(n) => head + "  \u{b7}  "@ + n,
            None => head,
        }
    }
}

pub open spec fn opt_text(o: Option<&str>) -> Option<Seq<char>> {
    match o {
        Some(s) => Some(s@),
        None => None,
    }
}

/// The left part of the status bar (see [`status_summary_spec`]): `all`
/// entries, `shown` of them passing a filter (when `filtered`), the folder
/// `unavailable`, the sizes of the selected entries and the name of the
/// entry under the cursor.
pub fn status_summary(
    all: usize,
    shown: usize,
    unavailable: bool,
    filtered: bool,
    sizes: &[u64],
    name: Option<&str>,
) -> (r: String)
    requires
        total(sizes@) <= u64::MAX,
    ensures
        r@ == status_summary_spec(all as nat, shown as nat, unavailable, filtered, sizes@, opt_text(name)),
{
    let mut m: Vec<char> = if unavailable {
        chars_of("Folder unavailable")
    } else if !filtered {
        let mut v = decimal(all as u64);
        push_str(&mut v, " items");
        v
    } else {
        let mut v = decimal(shown as u64);
        push_str(&mut v, " of ");
        push_all(&mut v, decimal(all as u64).as_slice());
        push_str(&mut v, " items");
        v
    };
    if sizes.len() > 1 {
        let mut sum: u64 = 0;
        let mut i: usize = 0;
        while i < sizes.len()
            invariant
                i <= sizes@.len(),
                total(sizes@) <= u64::MAX,
                sum == total(sizes@.take(i as int)),
            decreases sizes.len() - i,
        {
            assert(sizes@.take(i + 1).drop_last() =~= sizes@.take(i as int));
            proof {
                lemma_total_prefix(sizes@, i + 1);
            }
            sum = sum + sizes[i];
            i = i + 1;
        }
        assert(sizes@.take(sizes@.len() as int) =~= sizes@);
        push_str(&mut m, "  \u{b7}  ");
        push_all(&mut m, decimal(sizes.len() as u64).as_slice());
        push_str(&mut m, " items selected (");
        push_str(&mut m, format_size(sum).as_str());
        push_str(&mut m, ")");
    } else {
        match name {
            Some(n) => {
                push_str(&mut m, "  \u{b7}  ");
                push_str(&mut m, n);
            },
            None => {},
        }
    }
    string_of(m.as_slice())
}

proof fn lemma_total_prefix(s: Seq<u64>, k: int)
    requires
        0 <= k <= s.len(),
    ensures
        total(s.take(k)) <= total(s),
    decreases s.len(),
{
    if k < s.len() {
        assert(s.drop_last().take(k) =~= s.take(k));
        lemma_total_prefix(s.drop_last(), k);
    } else {
        assert(s.take(k) =~= s);
    }
}

/// The right part of the status bar when no transfer runs: the last status
/// message, else (in a wide window) the key hints.
pub open spec fn status_hint_spec(status: Option<Seq<char>>, wide: bool) -> Seq<char> {
    match status {
        Some(m) => m,
        None => if wide {
            "SPACE Preview   ENTER Open"@
        } else {
            ""@
        },
    }
}

/// The right part of the status bar when no transfer runs (see
/// [`status_hint_spec`]).
pub fn status_hint(status: Option<&str>, wide: bool) -> (r: String)
    ensures
        r@ == status_hint_spec(opt_text(status), wide),
{
    match status {
        Some(m) => m.to_string(),
        None => if wide {
            "SPACE Preview   ENTER Open".to_string()
        } else {
            "".to_string()
        },
    }
}

/// An item of the listing's context menu.
#[derive(Debug, Clone, Copy, PartialEq, Eq, Structural)]
pub enum MenuItem {
    Open,
    QuickLook,
    OpenInNewTab,
    /// Add the selected directory to the bookmarks, or remove it.
    ToggleBookmark { bookmarked: bool },
    Rename,
    Copy,
    Cut,
    CopyPath,
    /// Open the selected file with the `i`-th application offered for it.
    OpenWith(usize),
    Restore,
    MoveToTrash,
}

/// At most this many applications are offered in the context menu.
pub const MENU_APPS: usize = 3;

/// The menu's items for the selection `sel` (name, directory or not), whether
/// a selected directory is bookmarked, how many applications can open a
/// selected file, and the directory shown: directories can open in a new tab
/// and be (un)bookmarked; files can open with up to [`MENU_APPS`]
/// applications; inside a trash's `files` the last item restores instead of
/// trashing.
pub open spec fn context_menu_spec(
    sel: Option<(Seq<char>, bool)>,
    bookmarked: bool,
    apps: nat,
    cwd: Seq<char>,
) -> Seq<MenuItem> {
    let dir_items = if sel matches Some((_, true)) {
        seq![MenuItem::OpenInNewTab, MenuItem::ToggleBookmark { bookmarked }]
    } else {
        Seq::empty()
    };
    let shown = if apps < MENU_APPS {
        apps
    } else {
        MENU_APPS as nat
    };
    let app_items = if sel matches Some((_, false)) {
        Seq::new(shown, |i: int| MenuItem::OpenWith(i as usize))
    } else {
        Seq::empty()
    };
    let last = if contains_sub(cwd, "/Trash/files"@) {
        MenuItem::Restore
    } else {
        MenuItem::MoveToTrash
    };
    seq![MenuItem::Open, MenuItem::QuickLook] + dir_items + seq![
        MenuItem::Rename,
        MenuItem::Copy,
        MenuItem::Cut,
        MenuItem::CopyPath,
    ] + app_items + seq![last]
}

pub open spec fn selection(e: Option<&Entry>) -> Option<(Seq<char>, bool)> {
    match e {
        Some(x) => Some((x.name@, x.navigable)),
        None => None,
    }
}

/// The context menu's items (see [`context_menu_spec`]).
pub fn context_menu(selected: Option<&Entry>, bookmarked: bool, apps: usize, cwd: &str) -> (r: Vec<
    MenuItem,
>)
    ensures
        r@ == context_menu_spec(selection(selected), bookmarked, apps as nat, cwd@),
{
    let ghost sel = selection(selected);
    let mut v: Vec<MenuItem> = Vec::new();
    v.push(MenuItem::Open);
    v.push(MenuItem::QuickLook);
    let is_dir = match selected {
        Some(e) => e.navigable,
        None => false,
    };
    let is_file = match selected {
        Some(e) => !e.navigable,
        None => false,
    };
    if is_dir {
        v.push(MenuItem::OpenInNewTab);
        v.push(MenuItem::ToggleBookmark { bookmarked });
    }
    let ghost head = v@;
    v.push(MenuItem::Rename);
    v.push(MenuItem::Copy);
    v.push(MenuItem::Cut);
    v.push(MenuItem::CopyPath);
    let ghost mid = v@;
    let shown: usize = if apps < MENU_APPS {
        apps
    } else {
        MENU_APPS
    };
    let ghost app_items = if is_file {
        Seq::new(shown as nat, |i: int| MenuItem::OpenWith(i as usize))
    } else {
        Seq::<MenuItem>::empty()
    };
    if is_file {
        let mut i: usize = 0;
        while i < shown
            invariant
                i <= shown,
                v@ == mid + Seq::new(i as nat, |k: int| MenuItem::OpenWith(k as usize)),
            decreases shown - i,
        {
            v.push(MenuItem::OpenWith(i));
            assert(v@ =~= mid + Seq::new((i + 1) as nat, |k: int| MenuItem::OpenWith(k as usize)));
            i = i + 1;
        }
    } else {
        assert(v@ =~= mid + app_items);
    }
    let c = chars_of(cwd);
    let in_trash = contains_chars(c.as_slice(), chars_of("/Trash/files").as_slice());
    if in_trash {
        v.push(MenuItem::Restore);
    } else {
        v.push(MenuItem::MoveToTrash);
    }
    assert(v@ =~= context_menu_spec(sel, bookmarked, apps as nat, cwd@));
    v
}

/// The text of a menu item; `apps` names the applications offered.
pub open spec fn menu_label_spec(item: MenuItem, apps: Seq<Seq<char>>) -> Seq<char> {
    match item {
        MenuItem::Open => "Open"@,
        MenuItem::QuickLook => "Quick Look"@,
        MenuItem::OpenInNewTab => "Open in New Tab"@,
        MenuItem::ToggleBookmark { bookmarked } => if bookmarked {
            "Remove from Bookmarks"@
        } else {
            "Add to Bookmarks"@
        },
        MenuItem::Rename => "Rename"@,
        MenuItem::Copy => "Copy"@,
        MenuItem::Cut => "Cut"@,
        MenuItem::CopyPath => "Copy Path"@,
        MenuItem::OpenWith(i) => "Open with "@ + apps[i as int],
        MenuItem::Restore => "Restore"@,
        MenuItem::MoveToTrash => "Move to Trash"@,
    }
}

pub open spec fn names(v: Seq<String>) -> Seq<Seq<char>> {
    v.map_values(|s: String| s@)
}

/// The text of a menu item (see [`menu_label_spec`]).
pub fn menu_label(item: MenuItem, apps: &[String]) -> (r: String)
    requires
        item matches MenuItem::OpenWith(i) ==> i < apps@.len(),
    ensures
        r@ == menu_label_spec(item, names(apps@)),
{
    match item {
        MenuItem::Open => "Open".to_string(),
        MenuItem::QuickLook => "Quick Look".to_string(),
        MenuItem::OpenInNewTab => "Open in New Tab".to_string(),
        MenuItem::ToggleBookmark { bookmarked } => if bookmarked {
            "Remove from Bookmarks".to_string()
        } else {
            "Add to Bookmarks".to_string()
        },
        MenuItem::Rename => "Rename".to_string(),
        MenuItem::Copy => "Copy".to_string(),
        MenuItem::Cut => "Cut".to_string(),
        MenuItem::CopyPath => "Copy Path".to_string(),
        MenuItem::OpenWith(i) => {
            let mut m = chars_of("Open with ");
            push_str(&mut m, apps[i].as_str());
            string_of(m.as_slice())
        },
        MenuItem::Restore => "Restore".to_string(),
        MenuItem::MoveToTrash => "Move to Trash".to_string(),
    }
}

/// The trash item a listed entry `name` stands for: the first whose id is
/// `name` or whose stored file's name is `name`.
pub open spec fn restore_index_spec(items: Seq<TrashItem>, name: Seq<char>, i: int) -> Option<int>
    decreases items.len() - i,
{
    if i < 0 || i >= items.len() {
        None
    } else if items[i].id@ == name || file_name_spec(items[i].file_path@) == Some(name) {
        Some(i)
    } else {
        restore_index_spec(items, name, i + 1)
    }
}

/// The position of the trash item the entry `name` stands for (see
/// [`restore_index_spec`]).
pub fn restore_index(items: &[TrashItem], name: &str) -> (r: Option<usize>)
    ensures
        match r {
            Some(k) => restore_index_spec(items@, name@, 0) == Some(k as int),
            None => restore_index_spec(items@, name@, 0) is None,
        },
{
    let mut i: usize = 0;
    let n = chars_of(name);
    while i < items.len()
        invariant
            i <= items@.len(),
            n@ == name@,
            restore_index_spec(items@, name@, 0) == restore_index_spec(items@, name@, i as int),
        decreases items.len() - i,
    {
        if str_eq(items[i].id.as_str(), name) {
            return Some(i);
        }
        let p = chars_of(items[i].file_path.as_str());
        match file_name_chars(p.as_slice()) {
            Some(f) => if eq_chars(f.as_slice(), n.as_slice()) {
                return Some(i);
            },
            None => {},
        }
        i = i + 1;
    }
    None
}

} // verus!
