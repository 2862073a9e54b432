use arca::arca_core::bookmarks as core_marks;
use arca::arca_core::trash::percent_encode;
use arca::engine::bookmarks as engine_marks;
use arca::lantern::bookmarks as lantern_marks;
use core_marks::BookmarkKind;

const HOME: &str = "/home/tester";

/// A home directory every system has, other than the root.
fn real_home() -> String {
    "/tmp".to_string()
}

/// The user directories in sidebar order, with one of them (Documents)
/// resolved to an existing directory.
fn real_user_dirs() -> Vec<Option<String>> {
    vec![None, Some("/usr".to_string()), None, None, None, None]
}

#[test]
fn bookmarks_kind_classification() {
    assert_eq!(BookmarkKind::from_path(HOME, HOME), BookmarkKind::Home);
    assert_eq!(
        BookmarkKind::from_path("/home/tester/Downloads", HOME),
        BookmarkKind::Downloads
    );
    assert_eq!(BookmarkKind::from_path("/var/log", HOME), BookmarkKind::Folder);
    assert_eq!(
        engine_marks::BookmarkKind::from_path("/home/tester/Downloads", HOME),
        engine_marks::BookmarkKind::Downloads
    );
    assert_eq!(
        engine_marks::BookmarkKind::from_path("/var/log", HOME),
        engine_marks::BookmarkKind::Folder
    );
}

#[test]
fn bookmarks_bookmark_for_path_names() {
    assert_eq!(core_marks::Bookmark::for_path(HOME, HOME).name, "Home");
    assert_eq!(core_marks::Bookmark::for_path("/usr/share", HOME).name, "share");
    assert_eq!(engine_marks::Bookmark::for_path(HOME, HOME).name, "Home");
    assert_eq!(engine_marks::Bookmark::for_path("/usr/share", HOME).name, "share");
}

#[test]
fn bookmarks_parse_user_dirs_lines() {
    let content = "# written by xdg-user-dirs-update\nXDG_DESKTOP_DIR=\"$HOME/Desktop\"\nXDG_MUSIC_DIR=\"/srv/music\"\n";
    let dirs = core_marks::parse_user_dirs(content, HOME);
    assert!(!dirs.is_empty());
    for (key, value) in dirs {
        assert!(key.starts_with("XDG_"));
        assert!(value.starts_with('/'));
    }
}

#[test]
fn bookmarks_standard_bookmarks_starts_with_home() {
    let home = real_home();
    let dirs = real_user_dirs();
    let marks = core_marks::standard_bookmarks(&home, &dirs);
    assert_eq!(marks[0].kind, core_marks::BookmarkKind::Home);
    assert!(marks[0].pinned);
    for mark in &marks {
        assert!(std::path::Path::new(&mark.path).is_dir());
    }
    assert_eq!(marks.len(), 2);
    assert_eq!(marks[1].kind, core_marks::BookmarkKind::Documents);

    let marks = lantern_marks::standard_bookmarks(&home, &dirs);
    assert_eq!(marks[0].kind, lantern_marks::BookmarkKind::Home);
    assert!(marks[0].pinned);
    for mark in &marks {
        assert!(std::path::Path::new(&mark.path).is_dir());
    }
    assert_eq!(marks.len(), 2);
}

#[test]
fn standard_bookmarks_starts_with_home() {
    let home = real_home();
    let dirs = real_user_dirs();
    let marks = engine_marks::standard_bookmarks(&home, &dirs, &home);
    assert_eq!(marks[0].kind, engine_marks::BookmarkKind::Home);
    assert!(marks[0].pinned);
    for mark in &marks {
        assert!(std::path::Path::new(&mark.path).is_dir());
    }
    assert_eq!(marks[1].kind, engine_marks::BookmarkKind::Documents);
}

#[test]
fn bookmarks_gtk_bookmarks_roundtrip_and_percent_decoding() {
    let line = "file:///home/user/My%20Documents Important Docs";
    let mark = core_marks::parse_gtk_bookmark_line(line, HOME).expect("parse gtk bookmark");
    assert_eq!(mark.path, "/home/user/My Documents");
    assert_eq!(mark.name, "Important Docs");
    assert_eq!(mark.kind, core_marks::BookmarkKind::Folder);

    let formatted = core_marks::format_gtk_bookmark_line(&mark);
    assert_eq!(formatted, "file:///home/user/My%20Documents Important Docs");

    let simple_line = "file:///home/user/music";
    let simple_mark = core_marks::parse_gtk_bookmark_line(simple_line, HOME).expect("parse simple mark");
    assert_eq!(simple_mark.path, "/home/user/music");
    assert_eq!(simple_mark.name, "music");
    assert_eq!(core_marks::format_gtk_bookmark_line(&simple_mark), "file:///home/user/music");
}

#[test]
fn gtk_bookmarks_roundtrip_and_percent_decoding() {
    let line = "file:///home/user/My%20Documents Important Docs";
    let simple_line = "file:///home/user/music";
    let mark = engine_marks::parse_gtk_bookmark_line(line, HOME).expect("parse gtk bookmark");
    assert_eq!(mark.path, "/home/user/My Documents");
    assert_eq!(mark.name, "Important Docs");
    assert_eq!(mark.kind, engine_marks::BookmarkKind::Folder);
    assert_eq!(
        engine_marks::format_gtk_bookmark_line(&mark),
        "file:///home/user/My%20Documents Important Docs"
    );
    let simple_mark = engine_marks::parse_gtk_bookmark_line(simple_line, HOME).expect("parse simple mark");
    assert_eq!(simple_mark.path, "/home/user/music");
    assert_eq!(simple_mark.name, "music");
    assert_eq!(engine_marks::format_gtk_bookmark_line(&simple_mark), "file:///home/user/music");
}

#[test]
fn percent_encoding() {
    assert_eq!(percent_encode("/home/u/a b#c.txt"), "/home/u/a%20b%23c.txt");
    assert_eq!(percent_encode("/plain/path.txt"), "/plain/path.txt");
}

#[test]
fn standard_bookmarks_skip_home_duplicates_and_missing_dirs() {
    let dirs = vec![
        Some("/home/tester/Desktop".to_string()),
        None,
        Some("/home/tester".to_string()),
        Some("/home/tester/Desktop".to_string()),
        None,
        Some("/home/tester/Videos".to_string()),
    ];
    let marks = core_marks::standard_bookmarks(HOME, &dirs);
    let paths: Vec<&str> = marks.iter().map(|m| m.path.as_str()).collect();
    assert_eq!(paths, vec![HOME, "/home/tester/Desktop", "/home/tester/Videos"]);
    assert_eq!(marks[1].kind, core_marks::BookmarkKind::Desktop);
    assert_eq!(marks[2].kind, core_marks::BookmarkKind::Videos);
    let marks = engine_marks::standard_bookmarks(HOME, &dirs, "/home/tester/.local/share/Trash/files");
    assert_eq!(marks.last().unwrap().kind, engine_marks::BookmarkKind::Trash);
    assert_eq!(marks.last().unwrap().name, "Trash");
}
