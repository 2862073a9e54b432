use arca::engine::entry::{Entry, FileType};
use arca::lantern::chooser::{
    BytePath, Choice, FileChooserMode, FileChooserRequest, FileChooserResponse, FileFilter,
    FilterRule, FilterRuleKind, PromptAppearance, PromptColorScheme,
};
use arca::lantern::config::ThemeMode;
use arca::ui::chooser::{
    accept_label, dialog_theme, overwrite_message, save_name_for, start_dir, window_app_id,
    window_title, AcceptPlan, ChooserState,
};

fn request(mode: FileChooserMode) -> FileChooserRequest {
    FileChooserRequest {
        mode,
        app_id: String::new(),
        title: String::new(),
        accept_label: None,
        modal: false,
        parent_window: None,
        multiple: false,
        current_folder: None,
        current_name: None,
        current_file: None,
        filters: Vec::new(),
        current_filter: None,
        choices: Vec::new(),
        files: Vec::new(),
    }
}

fn bp(s: &str) -> BytePath {
    BytePath(s.as_bytes().to_vec())
}

fn text(p: &BytePath) -> String {
    String::from_utf8(p.0.clone()).unwrap()
}

fn glob(label: &str, pattern: &str) -> FileFilter {
    FileFilter {
        label: label.into(),
        rules: vec![FilterRule { kind: FilterRuleKind::Glob, value: pattern.into() }],
    }
}

fn entry(name: &str, dir: bool) -> Entry {
    Entry {
        name: name.into(),
        file_type: if dir { FileType::Directory } else { FileType::Regular },
        size: 0,
        mtime: 0,
        hidden: false,
        navigable: dir,
        mime_type: String::new(),
    }
}

#[test]
fn chooser_starts_with_suggested_name_and_current_filter() {
    let mut req = request(FileChooserMode::SaveFile);
    req.current_file = Some(bp("/home/u/report.txt"));
    req.filters = vec![glob("Images", "*.png"), glob("Text", "*.txt")];
    req.current_filter = Some(glob("Text", "*.txt"));
    req.choices = vec![Choice {
        id: "enc".into(),
        label: "Encoding".into(),
        options: vec![("utf8".into(), "UTF-8".into())],
        selected: "utf8".into(),
    }];
    let s = ChooserState::new(req, None);
    assert_eq!(s.save_name, "report.txt");
    assert_eq!(s.filter_index, 1);
    assert_eq!(s.active_filter().unwrap().label, "Text");
    assert_eq!(s.choices, vec![("enc".to_string(), "utf8".to_string())]);
    assert!(!s.done && s.result.is_none());

    let mut named = request(FileChooserMode::SaveFile);
    named.current_name = Some("new.txt".into());
    named.current_filter = Some(glob("Only", "*.md"));
    let s = ChooserState::new(named, None);
    assert_eq!(s.save_name, "new.txt");
    assert_eq!(s.filters.len(), 1);
    assert_eq!(s.filter_index, 0);
}

#[test]
fn chooser_answers_once() {
    let mut s = ChooserState::new(request(FileChooserMode::OpenFile), None);
    s.accept_paths(vec![bp("/a")]);
    assert!(s.done);
    s.cancel();
    match s.into_response() {
        FileChooserResponse::Selected { paths, .. } => assert_eq!(text(&paths[0]), "/a"),
        other => panic!("unexpected {other:?}"),
    }
    let s = ChooserState::new(request(FileChooserMode::OpenFile), None);
    assert!(matches!(s.into_response(), FileChooserResponse::Cancelled));
}

#[test]
fn chooser_escape_steps_back() {
    let mut s = ChooserState::new(request(FileChooserMode::SaveFile), None);
    s.overwrite_confirm = Some(bp("/x"));
    s.filter_menu_open = true;
    assert!(!s.escape());
    assert!(s.overwrite_confirm.is_none() && s.filter_menu_open);
    assert!(!s.escape());
    assert!(!s.filter_menu_open && !s.done);
    assert!(s.escape());
    assert!(matches!(s.result, Some(FileChooserResponse::Cancelled)));
}

#[test]
fn accept_plan_by_mode() {
    let s = ChooserState::new(request(FileChooserMode::OpenFile), None);
    match s.accept_plan("/home/u", Some(&entry("docs", true))) {
        AcceptPlan::OpenChild(n) => assert_eq!(n, "docs"),
        _ => panic!("expected OpenChild"),
    }
    match s.accept_plan("/home/u", Some(&entry("a.txt", false))) {
        AcceptPlan::Accept(p) => assert_eq!(text(&p[0]), "/home/u/a.txt"),
        _ => panic!("expected Accept"),
    }
    assert!(matches!(s.accept_plan("/home/u", None), AcceptPlan::Stay));

    let s = ChooserState::new(request(FileChooserMode::OpenDirectory), None);
    match s.accept_plan("/home/u", Some(&entry("a.txt", false))) {
        AcceptPlan::Accept(p) => assert_eq!(text(&p[0]), "/home/u"),
        _ => panic!("expected Accept"),
    }
    match s.accept_plan("/", Some(&entry("etc", true))) {
        AcceptPlan::Accept(p) => assert_eq!(text(&p[0]), "/etc"),
        _ => panic!("expected Accept"),
    }

    let mut req = request(FileChooserMode::SaveFile);
    req.current_name = Some("  notes ".into());
    req.current_filter = Some(glob("Text", "*.txt"));
    let s = ChooserState::new(req, None);
    match s.accept_plan("/tmp", None) {
        AcceptPlan::SaveTo(p) => assert_eq!(text(&p), "/tmp/notes.txt"),
        _ => panic!("expected SaveTo"),
    }

    let s = ChooserState::new(request(FileChooserMode::SaveFiles), None);
    match s.accept_plan("/tmp", Some(&entry("out", true))) {
        AcceptPlan::SaveFilesIn(p) => assert_eq!(text(&p), "/tmp/out"),
        _ => panic!("expected SaveFilesIn"),
    }
}

#[test]
fn save_name_rules() {
    let png = glob("Images", "*.png");
    assert_eq!(save_name_for(" shot ", Some(&png)).unwrap(), "shot.png");
    assert_eq!(save_name_for("shot.jpg", Some(&png)).unwrap(), "shot.jpg");
    assert_eq!(save_name_for("shot", Some(&glob("Any", "*.*"))).unwrap(), "shot");
    assert_eq!(save_name_for("shot", None).unwrap(), "shot");
    assert!(save_name_for("   ", None).is_none());
    assert!(save_name_for("a/b", None).is_none());
    assert!(save_name_for("a\0b", None).is_none());
}

#[test]
fn save_asks_before_replacing() {
    let mut s = ChooserState::new(request(FileChooserMode::SaveFile), None);
    assert!(!s.save_to(bp("/tmp/a.txt"), true));
    assert!(s.overwrite_confirm.is_some() && !s.done);
    assert!(!s.resolve_overwrite(false));
    assert!(s.overwrite_confirm.is_none() && !s.done);
    assert!(!s.save_to(bp("/tmp/a.txt"), true));
    assert!(s.resolve_overwrite(true));
    assert!(s.done);
    match &s.result {
        Some(FileChooserResponse::Selected { paths, .. }) => assert_eq!(text(&paths[0]), "/tmp/a.txt"),
        _ => panic!("expected an answer"),
    }
    let mut fresh = ChooserState::new(request(FileChooserMode::SaveFile), None);
    assert!(fresh.save_to(bp("/tmp/b.txt"), false));
    assert!(fresh.done);
    assert_eq!(
        overwrite_message(&bp("/tmp/a.txt")),
        "A file named \"a.txt\" already exists. Replacing it will overwrite its contents."
    );
}

#[test]
fn save_files_into_folder() {
    let mut req = request(FileChooserMode::SaveFiles);
    req.files = vec![bp("a.txt"), bp("a.txt")];
    let mut s = ChooserState::new(req, None);
    assert_eq!(s.save_summary(), "Saving 2 files to selected folder");
    s.save_files_in(bp("/dst"), &[bp("/dst/a.txt")]).unwrap();
    match &s.result {
        Some(FileChooserResponse::Selected { paths, .. }) => {
            assert_eq!(text(&paths[0]), "/dst/a (1).txt");
            assert_eq!(text(&paths[1]), "/dst/a (2).txt");
        }
        _ => panic!("expected an answer"),
    }
    let mut bad = request(FileChooserMode::SaveFiles);
    bad.files = vec![bp("x/y")];
    let mut s = ChooserState::new(bad, None);
    assert_eq!(s.save_summary(), "Saving 1 file to selected folder");
    let err = s.save_files_in(bp("/dst"), &[]).unwrap_err();
    assert!(err.starts_with("Save error: "));
    assert!(!s.done);
}

#[test]
fn chooser_labels_and_choices() {
    let mut req = request(FileChooserMode::OpenDirectory);
    assert_eq!(accept_label(&req), "Select Folder");
    assert_eq!(window_title(&req), "Select Folder");
    assert_eq!(window_app_id(&req), "io.arca.Chooser");
    req.accept_label = Some("Pick".into());
    req.title = "Choose".into();
    req.app_id = "org.example".into();
    assert_eq!(accept_label(&req), "Pick");
    assert_eq!(window_title(&req), "Choose");
    assert_eq!(window_app_id(&req), "org.example");
    assert_eq!(window_title(&request(FileChooserMode::SaveFiles)), "Save File");
    assert_eq!(accept_label(&request(FileChooserMode::OpenFile)), "Open");

    let choice = Choice {
        id: "enc".into(),
        label: "Encoding".into(),
        options: vec![("utf8".into(), "UTF-8".into()), ("latin1".into(), "Latin-1".into())],
        selected: "utf8".into(),
    };
    req.choices = vec![choice.clone()];
    req.filters = vec![glob("Images", "*.png")];
    let mut s = ChooserState::new(req, None);
    assert_eq!(s.choice_button_text(&choice), "Encoding: UTF-8 \u{25be}");
    s.set_choice("enc", "latin1".into());
    assert_eq!(s.choice_value(&choice), "latin1");
    assert_eq!(s.choice_button_text(&choice), "Encoding: Latin-1 \u{25be}");
    s.set_choice("other", "x".into());
    assert_eq!(s.choices.len(), 2);
    assert_eq!(s.filter_button_label().unwrap(), "Images \u{25be}");
    s.toggle_filter_menu();
    assert!(s.filter_menu_open);
    assert!(s.pick_filter(5).is_none());
    assert!(!s.filter_menu_open);
    assert_eq!(s.filter_button_label().unwrap(), "All files \u{25be}");
}

#[test]
fn chooser_start_dir_and_theme() {
    let mut req = request(FileChooserMode::OpenFile);
    assert_eq!(start_dir(&req, "/home/u"), "/home/u");
    req.current_file = Some(bp("/srv/data/file.txt"));
    assert_eq!(start_dir(&req, "/home/u"), "/srv/data");
    req.current_file = Some(bp("/"));
    assert_eq!(start_dir(&req, "/home/u"), "/home/u");
    req.current_file = Some(bp("/srv/data/"));
    assert_eq!(start_dir(&req, "/home/u"), "/srv");
    req.current_folder = Some(bp("/opt"));
    assert_eq!(start_dir(&req, "/home/u"), "/opt");

    let dark = PromptAppearance {
        color_scheme: PromptColorScheme::Dark,
        accent_color: None,
        high_contrast: false,
        reduced_motion: false,
    };
    assert_eq!(dialog_theme(Some(dark), ThemeMode::Light), ThemeMode::Dark);
    assert_eq!(dialog_theme(None, ThemeMode::Light), ThemeMode::Light);
}
