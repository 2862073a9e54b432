use arca::xdg::associations::{
    resolve_applications_for_mime, resolve_default_application, MimeAssociations,
};
use arca::xdg::desktop::{parse_desktop_file, tokenize_exec, DesktopEntry};
use arca::xdg::mime::{builtin_extension_mime, glob_match, sniff_magic, MimeDatabase};

#[test]
fn test_exec_field_code_expansion() {
    let entry = DesktopEntry {
        id: "editor.desktop".into(),
        path: "/usr/share/applications/editor.desktop".into(),
        name: "Text Editor".into(),
        command: "myeditor --title %c %F".into(),
        icon: Some("editor-icon".into()),
        mime_types: vec!["text/plain".into()],
        terminal: false,
        no_display: false,
        hidden: false,
    };

    let files = vec![
        "/home/user/test1.txt".to_string(),
        "/home/user/test2.txt".to_string(),
    ];
    let args = entry.format_exec(&files);

    assert_eq!(
        args,
        vec![
            "myeditor",
            "--title",
            "Text Editor",
            "/home/user/test1.txt",
            "/home/user/test2.txt"
        ]
    );
}

fn make_app(id: &str, name: &str) -> DesktopEntry {
    DesktopEntry {
        id: id.into(),
        path: format!("/usr/share/applications/{id}"),
        name: name.into(),
        command: format!("{name} %f"),
        icon: None,
        mime_types: vec!["image/png".into()],
        terminal: false,
        no_display: false,
        hidden: false,
    }
}

#[test]
fn test_mimeapps_priority_and_deterministic_order() {
    let mut associations = MimeAssociations::new();
    let content = r#"
[Added Associations]
image/png=viewer-added.desktop;
[Default Applications]
image/png=viewer-default.desktop;
[Removed Associations]
image/png=viewer-banned.desktop;
"#;
    associations.parse_content(content);

    let apps = vec![
        make_app("viewer-default.desktop", "Default Viewer"),
        make_app("viewer-added.desktop", "Added Viewer"),
        make_app("viewer-banned.desktop", "Banned Viewer"),
        make_app("zebra.desktop", "Zebra Viewer"),
        make_app("alpha.desktop", "Alpha Viewer"),
    ];

    let default_app = resolve_default_application("image/png", &apps, &associations).unwrap();
    assert_eq!(default_app.id, "viewer-default.desktop");

    let capable = resolve_applications_for_mime("image/png", &apps, &associations);
    let ids: Vec<&str> = capable.iter().map(|a| a.id.as_str()).collect();
    assert_eq!(
        ids,
        vec![
            "viewer-default.desktop",
            "viewer-added.desktop",
            "alpha.desktop",
            "zebra.desktop"
        ]
    );
}

#[test]
fn default_application_falls_back_to_first_capable_by_name() {
    let associations = MimeAssociations::new();
    let apps = vec![make_app("zebra.desktop", "Zebra Viewer"), make_app("alpha.desktop", "Alpha Viewer")];
    let chosen = resolve_default_application("image/png", &apps, &associations).unwrap();
    assert_eq!(chosen.id, "alpha.desktop");
    assert!(resolve_default_application("text/plain", &apps, &associations).is_none());
}

#[test]
fn desktop_file_parsing_reads_main_group_only() {
    let content = "[Desktop Entry]\nType=Application\nName=Viewer\nExec=viewer %U\nMimeType=image/png;image/jpeg;\nTerminal=true\n[Desktop Action New]\nName=Other\n";
    let entry = parse_desktop_file("/usr/share/applications/viewer.desktop", content).unwrap();
    assert_eq!(entry.id, "viewer.desktop");
    assert_eq!(entry.name, "Viewer");
    assert_eq!(entry.command, "viewer %U");
    assert_eq!(entry.mime_types, vec!["image/png", "image/jpeg"]);
    assert!(entry.terminal);
    assert!(parse_desktop_file("/x/broken.desktop", "[Desktop Entry]\nType=Application\nName=NoExec\n").is_none());
}

#[test]
fn exec_tokenizer_honours_quotes() {
    assert_eq!(tokenize_exec("a \"b c\" d"), vec!["a", "b c", "d"]);
}

#[test]
fn test_builtin_mimes() {
    assert_eq!(builtin_extension_mime("png"), Some("image/png"));
    assert_eq!(builtin_extension_mime("rs"), Some("text/rust"));
    assert_eq!(builtin_extension_mime("desktop"), Some("application/x-desktop"));
}

#[test]
fn test_glob_matching() {
    assert!(glob_match("*.tar.gz", "archive.tar.gz", false));
    assert!(glob_match("*.PNG", "photo.png", false));
    assert!(!glob_match("*.PNG", "photo.png", true));
    assert!(glob_match("Makefile*", "Makefile", false));
}

#[test]
fn magic_sniffing_of_elf_header() {
    let elf_header = b"\x7fELF\x02\x01\x01\x00";
    assert_eq!(sniff_magic(elf_header), Some("application/x-executable"));
}

#[test]
fn guess_uses_globs_then_builtin_then_magic() {
    let mut db = MimeDatabase::new();
    db.load_globs2("50:text/x-special:*.spc\n");
    db.sort_rules();
    assert_eq!(db.guess_mime_type("/tmp/a.spc", false, None), "text/x-special");
    assert_eq!(db.guess_mime_type("/tmp/a.png", false, None), "image/png");
    assert_eq!(db.guess_mime_type("/tmp", true, None), "inode/directory");
}

#[test]
fn first_capable_application_is_the_default() {
    let mut associations = MimeAssociations::new();
    associations.parse_content("[Added Associations]\nimage/png=zebra.desktop;\n");
    let apps = vec![
        make_app("alpha.desktop", "Alpha Viewer"),
        make_app("zebra.desktop", "Zebra Viewer"),
    ];
    let all = resolve_applications_for_mime("image/png", &apps, &associations);
    let default_app = resolve_default_application("image/png", &apps, &associations).unwrap();
    assert_eq!(all[0].id, default_app.id);
    assert_eq!(default_app.id, "zebra.desktop");

    let none = MimeAssociations::new();
    let all = resolve_applications_for_mime("image/png", &apps, &none);
    let default_app = resolve_default_application("image/png", &apps, &none).unwrap();
    assert_eq!(all[0].id, default_app.id);
    assert_eq!(default_app.id, "alpha.desktop");
}

#[test]
fn offered_applications_are_usable_and_listed_once() {
    let mut associations = MimeAssociations::new();
    associations.parse_content(
        "[Default Applications]\nimage/png=alpha.desktop;hidden.desktop\n[Added Associations]\nimage/png=alpha.desktop;gone.desktop;\n[Removed Associations]\nimage/png=gone.desktop;\n",
    );
    let mut hidden = make_app("hidden.desktop", "Hidden Viewer");
    hidden.hidden = true;
    let apps = vec![
        make_app("alpha.desktop", "Alpha Viewer"),
        make_app("gone.desktop", "Gone Viewer"),
        hidden,
        make_app("beta.desktop", "Beta Viewer"),
    ];
    let all = resolve_applications_for_mime("image/png", &apps, &associations);
    let ids: Vec<&str> = all.iter().map(|a| a.id.as_str()).collect();
    assert_eq!(ids, vec!["alpha.desktop", "beta.desktop"]);
}

#[test]
fn subclass_search_follows_links_depth_first() {
    let mut db = MimeDatabase::new();
    db.load_subclasses("text/x-csrc text/plain\ntext/plain application/octet-stream\n");
    assert!(db.is_subclass_of("text/x-csrc", "application/octet-stream"));
    assert!(db.is_subclass_of("text/plain", "text/plain"));
    assert!(!db.is_subclass_of("text/plain", "text/x-csrc"));

    let mut looped = MimeDatabase::new();
    looped.load_subclasses("a/x a/y\na/y a/x\n");
    assert!(looped.is_subclass_of("a/x", "a/y"));
}
