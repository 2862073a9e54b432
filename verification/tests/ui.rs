use arca::arca_core::bookmarks::BookmarkKind;
use arca::engine::entry::{Entry, FileType};
use arca::ui::icons::{bookmark_icon, entry_icon, AssetId};
use arca::ui::ipc::{
    drain_pending_open_requests, forward_path, is_ok_reply, open_request_line, parse_open_request,
    socket_path,
};

fn entry(name: &str, file_type: FileType, navigable: bool) -> Entry {
    Entry {
        name: name.to_string(),
        file_type,
        size: 0,
        mtime: 0,
        hidden: false,
        navigable,
        mime_type: String::new(),
    }
}

#[test]
fn ipc_server_forwarding_roundtrip() {
    let mut queue = Vec::new();
    let line = open_request_line(&forward_path("/tmp/test-ipc-folder", Some("/home")));
    assert_eq!(line, "OPEN\t/tmp/test-ipc-folder\n");
    if let Some(path) = parse_open_request(&line) {
        queue.push(path);
    }
    assert!(is_ok_reply("OK\n"));
    let drained = drain_pending_open_requests(&mut queue);
    assert_eq!(drained, vec!["/tmp/test-ipc-folder"]);
    assert!(queue.is_empty());
}

#[test]
fn ipc_protocol_details() {
    assert_eq!(parse_open_request("CLOSE\t/x\n"), None);
    assert_eq!(parse_open_request("  OPEN\t/a b \n"), Some("/a b".to_string()));
    assert!(!is_ok_reply("ERR"));
    assert_eq!(forward_path("docs", Some("/home/u")), "/home/u/docs");
    assert_eq!(forward_path("~/docs", Some("/home/u")), "~/docs");
    assert_eq!(forward_path("docs", None), "docs");
    assert_eq!(socket_path(Some("/run/user/1000"), Some("u"), "/tmp"), "/run/user/1000/arca-ipc.sock");
    assert_eq!(socket_path(None, Some("u"), "/tmp"), "/tmp/arca-ipc-u.sock");
    assert_eq!(socket_path(None, None, "/tmp"), "/tmp/arca-ipc-user.sock");
}

#[test]
fn entry_icons_follow_type_and_extension() {
    assert_eq!(entry_icon(&entry("Music", FileType::Directory, true)), AssetId::Music);
    assert_eq!(entry_icon(&entry("src", FileType::Directory, true)), AssetId::Folder);
    assert_eq!(entry_icon(&entry(".git", FileType::Symlink, true)), AssetId::GitBranch);
    assert_eq!(entry_icon(&entry("link", FileType::Symlink, false)), AssetId::Link2);
    assert_eq!(entry_icon(&entry("Photo.JPG", FileType::Regular, false)), AssetId::Image);
    assert_eq!(entry_icon(&entry("main.rs", FileType::Regular, false)), AssetId::Code);
    assert_eq!(entry_icon(&entry("Makefile", FileType::Regular, false)), AssetId::File);
    assert_eq!(entry_icon(&entry("notes.conf", FileType::Regular, false)), AssetId::FileText);
    assert_eq!(entry_icon(&entry("a.unknown", FileType::Regular, false)), AssetId::File);
}

#[test]
fn bookmark_icons_by_kind() {
    assert_eq!(bookmark_icon(BookmarkKind::Home), AssetId::Home);
    assert_eq!(bookmark_icon(BookmarkKind::Desktop), AssetId::Monitor);
    assert_eq!(bookmark_icon(BookmarkKind::Folder), AssetId::Folder);
}
