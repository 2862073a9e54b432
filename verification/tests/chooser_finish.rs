use arca::lantern::chooser::{BytePath, FileChooserMode, FileChooserRequest};

fn request(mode: FileChooserMode, files: &[&str]) -> FileChooserRequest {
    FileChooserRequest {
        mode,
        app_id: "app".into(),
        title: String::new(),
        accept_label: None,
        modal: false,
        parent_window: None,
        multiple: false,
        current_folder: None,
        current_name: None,
        current_file: None,
        filters: Vec::new(),
        current_filter: None,
        choices: Vec::new(),
        files: files.iter().map(|f| BytePath(f.as_bytes().to_vec())).collect(),
    }
}

fn bp(s: &str) -> BytePath {
    BytePath(s.as_bytes().to_vec())
}

fn texts(v: &[BytePath]) -> Vec<String> {
    v.iter().map(|p| String::from_utf8(p.0.clone()).unwrap()).collect()
}

#[test]
fn finish_paths_keeps_other_modes() {
    let req = request(FileChooserMode::OpenFile, &[]);
    let out = req.finish_paths(vec![bp("/a"), bp("/b")], &[]).unwrap();
    assert_eq!(texts(&out), vec!["/a", "/b"]);
}

#[test]
fn finish_paths_picks_unique_names_in_the_folder() {
    let req = request(FileChooserMode::SaveFiles, &["a.txt", "a.txt", "notes"]);
    let occupied = vec![bp("/dst/a.txt"), bp("/dst/notes")];
    let out = req.finish_paths(vec![bp("/dst/")], &occupied).unwrap();
    assert_eq!(texts(&out), vec!["/dst/a (1).txt", "/dst/a (2).txt", "/dst/notes (1)"]);
}

#[test]
fn finish_paths_needs_a_folder_and_valid_names() {
    let req = request(FileChooserMode::SaveFiles, &["a.txt"]);
    assert_eq!(
        req.finish_paths(Vec::new(), &[]).unwrap_err(),
        "SaveFiles returned no selected folder"
    );
    let bad = request(FileChooserMode::SaveFiles, &["x/y"]);
    assert!(bad.finish_paths(vec![bp("/dst")], &[]).is_err());
    let dotted = request(FileChooserMode::SaveFiles, &[".bashrc"]);
    let out = dotted.finish_paths(vec![bp("/dst")], &[bp("/dst/.bashrc")]).unwrap();
    assert_eq!(texts(&out), vec!["/dst/.bashrc (1)"]);
}
