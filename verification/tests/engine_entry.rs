use arca::engine::entry::{child_path, filtered_indices, sort_entries, Entry, FileType, SortKey};

fn entry(name: &str, ft: FileType, size: u64, mtime: i64) -> Entry {
    Entry {
        name: name.into(),
        file_type: ft,
        size,
        mtime,
        hidden: name.starts_with('.'),
        navigable: ft == FileType::Directory,
        mime_type: if ft == FileType::Directory {
            "inode/directory".into()
        } else {
            "text/plain".into()
        },
    }
}

#[test]
fn sort_dirs_first_then_name() {
    let mut v = vec![
        entry("zed.txt", FileType::Regular, 1, 0),
        entry("beta", FileType::Directory, 0, 0),
        entry("Alpha", FileType::Directory, 0, 0),
        entry("aardvark.txt", FileType::Regular, 1, 0),
    ];
    sort_entries(&mut v, SortKey::Name, true);
    let names: Vec<&str> = v.iter().map(|e| e.name.as_str()).collect();
    assert_eq!(names, ["Alpha", "beta", "aardvark.txt", "zed.txt"]);
}

#[test]
fn sort_by_size_descending_keeps_dirs_first() {
    let mut v = vec![
        entry("big", FileType::Regular, 100, 0),
        entry("dir", FileType::Directory, 0, 0),
        entry("small", FileType::Regular, 1, 0),
    ];
    sort_entries(&mut v, SortKey::Size, false);
    let names: Vec<&str> = v.iter().map(|e| e.name.as_str()).collect();
    assert_eq!(names, ["dir", "big", "small"]);
}

#[test]
fn sort_by_mtime_ascending() {
    let mut v = vec![
        entry("new", FileType::Regular, 0, 200),
        entry("old", FileType::Regular, 0, 100),
    ];
    sort_entries(&mut v, SortKey::Mtime, true);
    assert_eq!(v[0].name, "old");
}

#[test]
fn filter_is_case_insensitive_substring() {
    let v = vec![
        entry("Notes.md", FileType::Regular, 0, 0),
        entry("TODO", FileType::Regular, 0, 0),
        entry("src", FileType::Directory, 0, 0),
    ];
    assert_eq!(filtered_indices(&v, "to"), vec![1]);
    assert_eq!(filtered_indices(&v, ""), vec![0, 1, 2]);
    assert_eq!(filtered_indices(&v, "zzz"), Vec::<usize>::new());
}

#[test]
fn sort_keys_roundtrip_and_child_paths() {
    for key in [SortKey::Name, SortKey::Size, SortKey::Mtime] {
        assert_eq!(SortKey::parse(key.as_str()), Some(key));
    }
    assert_eq!(SortKey::parse("bogus"), None);
    assert_eq!(child_path("/", "etc"), "/etc");
    assert!(entry("d", FileType::Directory, 0, 0).is_dir());
    assert!(!entry("f", FileType::Regular, 0, 0).is_dir());
}

#[test]
fn sort_keeps_equal_entries_in_order() {
    let mut v = vec![
        entry("b.txt", FileType::Regular, 1, 0),
        entry("A", FileType::Regular, 1, 0),
        entry("a", FileType::Regular, 1, 0),
    ];
    sort_entries(&mut v, SortKey::Name, true);
    let names: Vec<&str> = v.iter().map(|e| e.name.as_str()).collect();
    assert_eq!(names, ["A", "a", "b.txt"]);

    let mut w = vec![
        entry("a", FileType::Regular, 1, 0),
        entry("A", FileType::Regular, 1, 0),
    ];
    sort_entries(&mut w, SortKey::Name, false);
    let names: Vec<&str> = w.iter().map(|e| e.name.as_str()).collect();
    assert_eq!(names, ["a", "A"]);
}
