use arca::xdg::clipboard::FileClipboard;
use arca::xdg::trash::{info_stem, parse_trashinfo, restore_destination, trash_item, trashinfo_content};

#[test]
fn test_clipboard_payload_roundtrip() {
    let f1 = "/tmp/arca_xdg_clip_test/file1.txt".to_string();
    let f2 = "/tmp/arca_xdg_clip_test/file2.txt".to_string();
    let existing = vec![f1.clone(), f2.clone()];

    let clip = FileClipboard::new(vec![f1.clone(), f2.clone()], false);
    let payload = clip.to_gnome_copied_files();
    assert!(payload.starts_with("copy\n"));

    let parsed = FileClipboard::from_text_payload(&payload, &existing).unwrap();
    assert!(!parsed.cut);
    assert_eq!(parsed.paths, vec![f1.clone(), f2.clone()]);

    let cut_clip = FileClipboard::new(vec![f1.clone()], true);
    let cut_payload = cut_clip.to_gnome_copied_files();
    assert!(cut_payload.starts_with("cut\n"));
    let parsed_cut = FileClipboard::from_text_payload(&cut_payload, &existing).unwrap();
    assert!(parsed_cut.cut);
    assert_eq!(parsed_cut.paths, vec![f1]);
}

#[test]
fn clipboard_xdg_payload_roundtrip() {
    let file1 = "/tmp/fixture/a.txt".to_string();
    let file2 = "/tmp/fixture/b.txt".to_string();
    let existing = vec![file1.clone(), file2.clone()];

    let clip = FileClipboard::new(vec![file1.clone(), file2.clone()], false);
    let gnome_payload = clip.to_gnome_copied_files();
    assert!(gnome_payload.starts_with("copy\n"));

    let parsed = FileClipboard::from_text_payload(&gnome_payload, &existing).expect("should parse");
    assert!(!parsed.cut);
    assert_eq!(parsed.paths, vec![file1.clone(), file2.clone()]);

    let cut_clip = FileClipboard::new(vec![file1.clone()], true);
    let cut_payload = cut_clip.to_gnome_copied_files();
    assert!(cut_payload.starts_with("cut\n"));
    let parsed_cut = FileClipboard::from_text_payload(&cut_payload, &existing).expect("should parse");
    assert!(parsed_cut.cut);
    assert_eq!(parsed_cut.paths, vec![file1.clone()]);

    let uri_list = clip.to_uri_list();
    assert!(uri_list.contains("\r\n"));
    let parsed_uri =
        FileClipboard::from_text_payload(&uri_list, &existing).expect("should parse uri-list");
    assert_eq!(parsed_uri.paths, vec![file1, file2]);
}

#[test]
fn clipboard_payload_encodes_and_restores_spaces() {
    let p = "/home/u/my file.txt".to_string();
    let clip = FileClipboard::new(vec![p.clone()], true);
    let payload = clip.to_gnome_copied_files();
    assert_eq!(payload, "cut\nfile:///home/u/my%20file.txt\n");
    let parsed = FileClipboard::from_text_payload(&payload, &[p.clone()]).unwrap();
    assert!(parsed.cut);
    assert_eq!(parsed.paths, vec![p]);
}

#[test]
fn clipboard_payload_drops_missing_paths() {
    let payload = "copy\nfile:///a\nfile:///b\n";
    let parsed = FileClipboard::from_text_payload(payload, &["/b".to_string()]).unwrap();
    assert_eq!(parsed.paths, vec!["/b".to_string()]);
    assert!(FileClipboard::from_text_payload(payload, &[]).is_none());
    assert!(FileClipboard::from_text_payload("  \n ", &["/b".to_string()]).is_none());
}

#[test]
fn trashinfo_reads_back_what_was_written() {
    let info = trashinfo_content("/home/u/delete me.txt", "2024-05-01T10:20:30");
    assert_eq!(
        info,
        "[Trash Info]\nPath=/home/u/delete%20me.txt\nDeletionDate=2024-05-01T10:20:30\n"
    );
    let (path, date) = parse_trashinfo(&info).unwrap();
    assert_eq!(path, "/home/u/delete me.txt");
    assert_eq!(date, "2024-05-01T10:20:30");
    assert!(parse_trashinfo("[Trash Info]\nPath=/x\n").is_none());
}

#[test]
fn trashinfo_spoiled_by_bad_path() {
    assert!(parse_trashinfo("[Trash Info]\nPath=/a%FF\nPath=/b\nDeletionDate=2024-01-01T00:00:00\n").is_none());
    let (p, d) = parse_trashinfo("Path=/a\nPath=/b\nDeletionDate=x\nDeletionDate=y\n").unwrap();
    assert_eq!((p.as_str(), d.as_str()), ("/b", "y"));
}

#[test]
fn trash_listing_and_restore_targets() {
    assert_eq!(info_stem("/t/info/a.txt.trashinfo").as_deref(), Some("a.txt"));
    assert_eq!(info_stem("/t/info/a.txt"), None);
    assert_eq!(info_stem("/t/info/.trashinfo"), None);
    let item = trash_item(
        "/home/u/.local/share/Trash",
        "my file.txt",
        "[Trash Info]\nPath=/home/u/my%20file.txt\nDeletionDate=2024-05-01T10:20:30\n",
        false,
        12,
    )
    .unwrap();
    assert_eq!(item.id, "my file.txt");
    assert_eq!(item.original_name, "my file.txt");
    assert_eq!(item.original_path, "/home/u/my file.txt");
    assert_eq!(item.file_path, "/home/u/.local/share/Trash/files/my file.txt");
    assert_eq!(item.info_path, "/home/u/.local/share/Trash/info/my file.txt.trashinfo");
    assert_eq!(item.size, 12);
    assert!(trash_item("/t", "x", "garbage", false, 0).is_none());
    assert_eq!(restore_destination(&item, false, &[]), "/home/u/my file.txt");
    let taken = vec!["my file.txt".to_string(), "my file.txt (restored)".to_string()];
    assert_eq!(restore_destination(&item, true, &taken), "/home/u/my file.txt (restored 2)");
}

#[test]
fn deletion_dates_are_utc_iso() {
    assert_eq!(arca::xdg::trash::deletion_date(0), "1970-01-01T00:00:00");
    assert_eq!(arca::xdg::trash::deletion_date(1714558830), "2024-05-01T10:20:30");
    assert_eq!(arca::xdg::trash::deletion_date(951782400), "2000-02-29T00:00:00");
}

#[test]
fn trash_on_other_mounts() {
    let anc = arca::xdg::trash::ancestors("/media/usb/docs/a.txt");
    assert_eq!(anc, vec!["/media/usb/docs", "/media/usb", "/media", "/"]);
    assert_eq!(arca::xdg::trash::ancestors("/"), Vec::<String>::new());
    let devs = vec![Some(7), Some(7), Some(1), Some(1)];
    assert_eq!(arca::xdg::trash::mount_top("/media/usb/docs/a.txt", &anc, &devs, 7), "/media/usb");
    assert_eq!(arca::xdg::trash::mount_top("/media/usb/docs/a.txt", &anc, &[None], 7), "/media/usb/docs/a.txt");
    assert_eq!(arca::xdg::trash::user_trash_dir("/media/usb", 1000), "/media/usb/.Trash-1000");
}

#[test]
fn uri_list_roundtrip_drops_cut() {
    let f1 = "/tmp/arca uri/one.txt".to_string();
    let f2 = "/tmp/arca uri/two#.txt".to_string();
    let existing = vec![f1.clone(), f2.clone()];
    let clip = FileClipboard::new(vec![f1.clone(), f2.clone()], true);
    let list = clip.to_uri_list();
    assert_eq!(list, "file:///tmp/arca%20uri/one.txt\r\nfile:///tmp/arca%20uri/two%23.txt\r\n");
    let parsed = FileClipboard::from_text_payload(&list, &existing).unwrap();
    assert!(!parsed.cut);
    assert_eq!(parsed.paths, vec![f1, f2]);
}
