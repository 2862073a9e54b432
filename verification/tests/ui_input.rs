use arca::engine::entry::{Entry, FileType};
use arca::lantern::chooser::FileChooserMode;
use arca::lantern::config::ViewMode;
use arca::ui::browser::{
    context_menu, is_thumbable, menu_label, restore_index, status_hint, status_summary, tab_title,
    MenuItem,
};
use arca::ui::input::{
    click, key_command, ChooserKeys, ClickAction, Key, KeyCommand, KeyContext, Mods,
};
use arca::xdg::trash::TrashItem;

fn ctx(view_mode: ViewMode) -> KeyContext {
    KeyContext {
        location_focused: false,
        filter_focused: false,
        rename_focused: false,
        chooser: None,
        view_mode,
        has_selection: true,
        grid_columns: 4,
    }
}

const NONE: Mods = Mods { ctrl: false, alt: false, shift: false };
const CTRL: Mods = Mods { ctrl: true, alt: false, shift: false };
const ALT: Mods = Mods { ctrl: false, alt: true, shift: false };

#[test]
fn keys_navigate_and_select() {
    let grid = ctx(ViewMode::Grid);
    assert_eq!(key_command(Key::Up, NONE, grid), (KeyCommand::MoveSelection(-4), false));
    assert_eq!(key_command(Key::Down, NONE, grid), (KeyCommand::MoveSelection(4), false));
    let mut empty = grid;
    empty.has_selection = false;
    assert_eq!(key_command(Key::Down, NONE, empty), (KeyCommand::MoveSelection(1), false));
    assert_eq!(key_command(Key::Left, NONE, grid), (KeyCommand::MoveSelection(-1), false));
    let list = ctx(ViewMode::List);
    assert_eq!(key_command(Key::Down, NONE, list), (KeyCommand::MoveSelection(1), false));
    assert_eq!(key_command(Key::Left, NONE, list), (KeyCommand::Ignore, false));
    let miller = ctx(ViewMode::Miller);
    assert_eq!(key_command(Key::Left, NONE, miller), (KeyCommand::GoUp, false));
    assert_eq!(key_command(Key::Right, NONE, miller), (KeyCommand::OpenSelected, false));
    assert_eq!(key_command(Key::Left, ALT, list), (KeyCommand::GoBack, false));
    assert_eq!(key_command(Key::Backspace, NONE, list), (KeyCommand::GoUp, false));
    assert_eq!(key_command(Key::Return, NONE, list), (KeyCommand::OpenSelected, false));
    assert_eq!(key_command(Key::Space, NONE, list), (KeyCommand::TogglePreview, false));
    assert_eq!(key_command(Key::Delete, NONE, list), (KeyCommand::TrashSelected, false));
}

#[test]
fn keys_ctrl_shortcuts() {
    let list = ctx(ViewMode::List);
    assert_eq!(key_command(Key::Char('r'), CTRL, list).0, KeyCommand::Refresh);
    assert_eq!(key_command(Key::Char('x'), CTRL, list).0, KeyCommand::Yank { cut: true });
    assert_eq!(key_command(Key::Char('3'), CTRL, list).0, KeyCommand::SwitchTab(2));
    let shift = Mods { ctrl: true, alt: false, shift: true };
    assert_eq!(key_command(Key::Char('n'), shift, list).0, KeyCommand::NewFolder);
    assert_eq!(key_command(Key::Char('r'), shift, list).0, KeyCommand::Ignore);
    assert_eq!(key_command(Key::Tab, shift, list), (KeyCommand::CycleTab { backward: true }, true));
    assert_eq!(key_command(Key::Char('r'), NONE, list).0, KeyCommand::Ignore);
}

#[test]
fn keys_in_text_fields_and_chooser() {
    let mut editing = ctx(ViewMode::List);
    editing.location_focused = true;
    assert_eq!(key_command(Key::Return, NONE, editing), (KeyCommand::SubmitLocation, true));
    assert_eq!(key_command(Key::Tab, NONE, editing), (KeyCommand::CompleteLocation, true));
    assert_eq!(key_command(Key::Char('r'), CTRL, editing), (KeyCommand::Ignore, false));
    editing.rename_focused = true;
    assert_eq!(key_command(Key::Return, NONE, editing), (KeyCommand::CommitRename, true));

    let mut dialog = ctx(ViewMode::List);
    dialog.chooser = Some(ChooserKeys {
        overwrite_pending: true,
        filter_menu_open: true,
        save_name_focused: false,
    });
    assert_eq!(key_command(Key::Escape, NONE, dialog), (KeyCommand::DismissOverwrite, true));
    dialog.chooser = Some(ChooserKeys {
        overwrite_pending: false,
        filter_menu_open: true,
        save_name_focused: false,
    });
    assert_eq!(key_command(Key::Escape, NONE, dialog), (KeyCommand::CloseFilterMenu, true));
    dialog.chooser = Some(ChooserKeys {
        overwrite_pending: false,
        filter_menu_open: false,
        save_name_focused: true,
    });
    assert_eq!(key_command(Key::Escape, NONE, dialog), (KeyCommand::CancelChooser, true));
    assert_eq!(key_command(Key::Return, NONE, dialog), (KeyCommand::AcceptChooser, true));
    dialog.chooser = Some(ChooserKeys {
        overwrite_pending: false,
        filter_menu_open: false,
        save_name_focused: false,
    });
    assert_eq!(key_command(Key::Return, NONE, dialog), (KeyCommand::AcceptChooser, false));
    assert_eq!(key_command(Key::Char('t'), CTRL, dialog).0, KeyCommand::Ignore);
    assert_eq!(key_command(Key::Escape, NONE, ctx(ViewMode::List)), (KeyCommand::Ignore, false));
}

#[test]
fn clicks_select_then_open() {
    let (a, last) = click(None, 3, 1000, None, Some(false));
    assert_eq!(a, ClickAction::Select { fill_save_name: false });
    assert_eq!(last, Some((3, 1000)));
    assert_eq!(click(last, 3, 1200, None, Some(false)), (ClickAction::OpenChild, None));
    assert_eq!(click(last, 3, 1400, None, Some(false)).0, ClickAction::Select { fill_save_name: false });
    assert_eq!(click(last, 4, 1100, None, Some(false)).1, Some((4, 1100)));
    let open = Some(FileChooserMode::OpenFile);
    assert_eq!(click(last, 3, 1100, open, Some(false)).0, ClickAction::AcceptFile);
    assert_eq!(click(last, 3, 1100, open, Some(true)).0, ClickAction::OpenChild);
    let save = Some(FileChooserMode::SaveFile);
    assert_eq!(click(last, 3, 1100, save, Some(false)).0, ClickAction::SaveAs);
    assert_eq!(click(None, 3, 1100, save, Some(false)).0, ClickAction::Select { fill_save_name: true });
    assert_eq!(click(None, 3, 1100, save, Some(true)).0, ClickAction::Select { fill_save_name: false });
}

fn entry(name: &str, dir: bool) -> Entry {
    Entry {
        name: name.into(),
        file_type: if dir { FileType::Directory } else { FileType::Regular },
        size: 0,
        mtime: 0,
        hidden: false,
        navigable: dir,
        mime_type: String::new(),
    }
}

#[test]
fn browser_titles_and_thumbnails() {
    assert_eq!(tab_title("/home/u/Music"), "Music");
    assert_eq!(tab_title("/"), "/");
    assert_eq!(tab_title("/home/u/"), "u");
    assert!(is_thumbable("Song.FLAC"));
    assert!(is_thumbable("a.jpeg"));
    assert!(is_thumbable(".png"));
    assert!(!is_thumbable("png"));
    assert!(!is_thumbable("a.gif"));
}

#[test]
fn context_menu_items() {
    let dir = entry("docs", true);
    let items = context_menu(Some(&dir), true, 5, "/home/u");
    assert_eq!(
        items,
        vec![
            MenuItem::Open,
            MenuItem::QuickLook,
            MenuItem::OpenInNewTab,
            MenuItem::ToggleBookmark { bookmarked: true },
            MenuItem::Rename,
            MenuItem::Copy,
            MenuItem::Cut,
            MenuItem::CopyPath,
            MenuItem::MoveToTrash,
        ]
    );
    let file = entry("a.txt", false);
    let items = context_menu(Some(&file), false, 5, "/home/u/.local/share/Trash/files");
    assert_eq!(items.len(), 10);
    assert_eq!(items[8], MenuItem::OpenWith(2));
    assert_eq!(items[9], MenuItem::Restore);
    let apps = vec!["Editor".to_string()];
    assert_eq!(menu_label(MenuItem::OpenWith(0), &apps), "Open with Editor");
    assert_eq!(menu_label(MenuItem::ToggleBookmark { bookmarked: false }, &apps), "Add to Bookmarks");
}

#[test]
fn restore_finds_trash_item() {
    let item = |id: &str, file: &str| TrashItem {
        id: id.into(),
        original_name: String::new(),
        original_path: String::new(),
        deletion_date: String::new(),
        file_path: file.into(),
        info_path: String::new(),
        is_dir: false,
        size: 0,
    };
    let items = vec![item("x", "/t/files/x"), item("y.1", "/t/files/y.txt")];
    assert_eq!(restore_index(&items, "y.txt"), Some(1));
    assert_eq!(restore_index(&items, "x"), Some(0));
    assert_eq!(restore_index(&items, "z"), None);
}

#[test]
fn status_bar_texts() {
    assert_eq!(status_summary(12, 3, false, false, &[], None), "12 items");
    assert_eq!(status_summary(12, 3, false, true, &[], Some("a.txt")), "3 of 12 items  \u{b7}  a.txt");
    assert_eq!(status_summary(12, 3, true, false, &[], None), "Folder unavailable");
    assert_eq!(
        status_summary(12, 12, false, false, &[1024, 1024], Some("a.txt")),
        format!("12 items  \u{b7}  2 items selected ({})", arca::engine::format::format_size(2048))
    );
    assert_eq!(status_hint(None, true), "SPACE Preview   ENTER Open");
    assert_eq!(status_hint(None, false), "");
    assert_eq!(status_hint(Some("Copied"), true), "Copied");
}
