use arca::engine::bookmarks::{Bookmark, BookmarkKind};
use arca::engine::entry::{Entry, FileType, SortKey};
use arca::engine::state::{
    active_view_paths, add_bookmark, is_bookmarked, miller_columns, miller_paths, navigation_target,
    new_tab_target, plan_fs_events, toggle_bookmark, toggle_sort, user_bookmark_paths,
    visible_indices, BookmarkChange, FsAction, MillerColumn, TabState, Tabs,
};
use arca::engine::session::Notice;
use arca::lantern::chooser::{FileFilter, FilterRule, FilterRuleKind};

const HOME: &str = "/home/tester";

fn entry(name: &str, dir: bool) -> Entry {
    Entry {
        name: name.to_string(),
        file_type: if dir { FileType::Directory } else { FileType::Regular },
        size: 1,
        mtime: 0,
        hidden: name.starts_with('.'),
        navigable: dir,
        mime_type: String::new(),
    }
}

fn tab_with(names: &[&str]) -> TabState {
    let mut tab = TabState::empty(1);
    tab.cwd = "/data".to_string();
    tab.entries = names.iter().map(|n| entry(n, false)).collect();
    tab
}

#[test]
fn state_selection_and_filter() {
    let tab = tab_with(&["alpha.txt", "Beta.txt", "gamma.md"]);
    assert_eq!(visible_indices(&tab.entries, "", None, &tab.cwd), vec![0, 1, 2]);
    assert_eq!(visible_indices(&tab.entries, "  BET ", None, &tab.cwd), vec![1]);
    assert_eq!(visible_indices(&tab.entries, ".txt", None, &tab.cwd), vec![0, 1]);
}

#[test]
fn file_filter_keeps_directories_and_filters_files() {
    let entries = vec![entry("docs", true), entry("a.png", false), entry("b.txt", false)];
    let filter = FileFilter::new(
        "Images".to_string(),
        vec![FilterRule { kind: FilterRuleKind::Glob, value: "*.png".into() }],
    );
    assert_eq!(visible_indices(&entries, "", Some(&filter), "/data"), vec![0, 1]);
}

#[test]
fn cursor_moves_clamp_to_the_list() {
    let mut tab = tab_with(&["a", "b", "c"]);
    tab.move_selection(1, 3);
    assert_eq!(tab.selected, Some(0));
    tab.move_selection(10, 3);
    assert_eq!(tab.selected, Some(2));
    tab.move_selection(-1, 3);
    assert_eq!(tab.selected, Some(1));
    tab.move_selection(-100, 3);
    assert_eq!(tab.selected, Some(0));
    let mut fresh = tab_with(&["a", "b", "c"]);
    fresh.move_selection(-1, 3);
    assert_eq!(fresh.selected, Some(2));
    fresh.move_selection(1, 0);
    assert_eq!(fresh.selected, None);
    assert!(fresh.selected_indices.is_empty());
}

#[test]
fn multi_selection_and_batch_operations() {
    let mut tab = tab_with(&["a", "b", "c", "d", "e"]);
    tab.select_visible(1, 5);
    tab.select_range_visible(3, 5);
    assert_eq!(tab.selected_indices, vec![1, 2, 3]);
    assert_eq!(tab.selected, Some(3));
    tab.toggle_select_visible(2, 5);
    assert_eq!(tab.selected_indices, vec![1, 3]);
    tab.toggle_select_visible(4, 5);
    assert_eq!(tab.selected_indices, vec![1, 3, 4]);
    assert_eq!(tab.selected, Some(4));
    tab.toggle_select_visible(4, 5);
    assert_eq!(tab.selected, Some(1));
    tab.select_all(5);
    assert_eq!(tab.selected_indices, vec![0, 1, 2, 3, 4]);
    let visible: Vec<usize> = (0..5).collect();
    let paths = tab.selected_paths(&visible);
    assert_eq!(paths.len(), 5);
    assert_eq!(paths[0], "/data/a");
    tab.clear_selection();
    assert!(tab.selected_paths(&visible).is_empty());
    tab.move_selection_ext(1, true, 5);
    assert_eq!(tab.selected_indices, vec![0]);
    tab.move_selection_ext(2, true, 5);
    assert_eq!(tab.selected_indices, vec![0, 1, 2]);
}

#[test]
fn select_by_name_finds_visible_entry() {
    let mut tab = tab_with(&["a", "b", "c"]);
    tab.select_by_name("c", &[0, 2]);
    assert_eq!(tab.selected, Some(1));
    tab.select_by_name("b", &[0, 2]);
    assert_eq!(tab.selected, None);
}

#[test]
fn state_sort_toggle_flips_direction() {
    assert_eq!(toggle_sort(SortKey::Name, true, SortKey::Name), (SortKey::Name, false));
    assert_eq!(toggle_sort(SortKey::Name, false, SortKey::Size), (SortKey::Size, true));
}

#[test]
fn tabs_open_close_switch_and_cycle() {
    let mut tabs = Tabs::new();
    assert!(!tabs.close_tab(0));
    let id = tabs.open_tab();
    assert_eq!(id, 2);
    assert_eq!(tabs.active, 1);
    tabs.open_tab();
    assert_eq!(tabs.tabs.len(), 3);
    assert!(tabs.switch_tab(0));
    assert!(!tabs.switch_tab(0));
    assert!(tabs.cycle_tab(true));
    assert_eq!(tabs.active, 2);
    assert!(tabs.cycle_tab(false));
    assert_eq!(tabs.active, 0);
    assert!(tabs.close_tab(1));
    assert_eq!(tabs.tabs.len(), 2);
    assert_eq!(tabs.tabs[1].id, 3);
    assert!(tabs.switch_tab(1));
    assert!(tabs.close_tab(1));
    assert_eq!(tabs.active, 0);
}

#[test]
fn navigation_targets() {
    assert_eq!(navigation_target("/data", "sub", HOME), "/data/sub");
    assert_eq!(navigation_target("/data", "/etc/../usr", HOME), "/usr");
    assert_eq!(navigation_target("/data", "~/x", HOME), "/home/tester/x");
    assert_eq!(navigation_target("", "rel", HOME), "rel");
    assert_eq!(new_tab_target("/data", None, HOME), "/data");
    assert_eq!(new_tab_target("/data", Some(".."), HOME), "/");
}

#[test]
fn state_bookmark_toggle_roundtrip() {
    let mut marks = vec![Bookmark::for_path(HOME, HOME)];
    assert!(!is_bookmarked(&marks, "/srv/media"));
    let (change, path) = toggle_bookmark(&mut marks, "/srv//media/", HOME);
    assert_eq!(change, BookmarkChange::Added);
    assert_eq!(path, "/srv/media");
    assert!(is_bookmarked(&marks, "/srv/media"));
    assert_eq!(user_bookmark_paths(&marks), vec!["/srv/media"]);
    let (change, _) = toggle_bookmark(&mut marks, "/srv/media", HOME);
    assert_eq!(change, BookmarkChange::Removed);
    assert_eq!(marks.len(), 1);
    let (change, _) = toggle_bookmark(&mut marks, HOME, HOME);
    assert_eq!(change, BookmarkChange::Kept);
    assert_eq!(marks[0].kind, BookmarkKind::Home);
}

#[test]
fn add_bookmark_and_drop_into() {
    let mut marks = Vec::new();
    assert!(add_bookmark(&mut marks, "/srv/media", HOME));
    assert!(!add_bookmark(&mut marks, "/srv/media/", HOME));
    assert_eq!(marks.len(), 1);
}

#[test]
fn state_miller_columns_end_at_active_directory() {
    assert_eq!(miller_paths("/a/b/c"), vec!["/", "/a", "/a/b", "/a/b/c"]);
    assert_eq!(miller_paths("/a/b/c/d/e"), vec!["/a/b", "/a/b/c", "/a/b/c/d", "/a/b/c/d/e"]);
    assert_eq!(miller_paths("/"), vec!["/"]);
    assert!(miller_paths("").is_empty());
    let cols = miller_columns(
        vec!["/".to_string(), "/a".to_string()],
        vec![vec![entry("x", true), entry("a", true)], vec![entry("f", false)]],
        Some(0),
    );
    assert_eq!(cols.len(), 2);
    assert_eq!(cols[0].selected, Some(1));
    assert_eq!(cols[1].selected, Some(0));
    assert_eq!(cols[1].path, "/a");
}

#[test]
fn watched_paths_cover_tabs_and_columns_once() {
    let mut tabs = Tabs::new();
    tabs.tabs[0].cwd = "/a".to_string();
    tabs.open_tab();
    tabs.tabs[1].cwd = "/a".to_string();
    tabs.tabs[1].miller_columns = vec![
        MillerColumn { path: "/".to_string(), entries: Vec::new(), selected: None },
        MillerColumn { path: "/a".to_string(), entries: Vec::new(), selected: None },
    ];
    assert_eq!(active_view_paths(&tabs, false), vec!["/a"]);
    assert_eq!(active_view_paths(&tabs, true), vec!["/a", "/"]);
}

#[test]
fn fs_events_plan_refreshes_and_reloads() {
    let mut tabs = Tabs::new();
    tabs.tabs[0].cwd = "/a".to_string();
    tabs.open_tab();
    tabs.tabs[1].cwd = "/b".to_string();
    tabs.tabs[1].miller_columns = vec![MillerColumn { path: "/".to_string(), entries: Vec::new(), selected: None }];
    assert_eq!(tabs.active, 1);
    let plan = plan_fs_events(&tabs, true, &["/a".to_string(), "/".to_string(), "/b".to_string()]);
    assert_eq!(
        plan,
        vec![FsAction::ReloadTab(0), FsAction::RebuildMiller, FsAction::RefreshActive]
    );
    assert!(plan_fs_events(&tabs, true, &[]).is_empty());
}

#[test]
fn navigate_to_records_history_and_resets_the_view() {
    let mut tab = tab_with(&["a", "b"]);
    tab.selected = Some(1);
    tab.filter = "b".to_string();
    let r = tab.navigate_to("/x".to_string(), false, Ok(vec![]));
    assert!(matches!(r, Some(Notice::NotADirectory(ref p)) if p == "/x"));
    assert_eq!(tab.cwd, "/data");
    assert_eq!(tab.selected, Some(1));

    assert!(tab.navigate_to("/one".to_string(), true, Ok(vec![entry("f", false)])).is_none());
    assert_eq!(tab.cwd, "/one");
    assert_eq!(tab.selected, None);
    assert_eq!(tab.filter, "");
    assert_eq!(tab.entries.len(), 1);
    assert!(tab.read_error.is_none());

    assert!(tab.navigate_to("/two".to_string(), true, Err("denied".to_string())).is_none());
    assert_eq!(tab.cwd, "/two");
    assert!(tab.entries.is_empty());
    assert_eq!(tab.read_error.as_deref(), Some("denied"));

    assert_eq!(tab.back_target().as_deref(), Some("/one"));
    assert_eq!(tab.back_target(), None);
    assert_eq!(tab.forward_target().as_deref(), Some("/two"));
    assert_eq!(tab.forward_target(), None);
}

#[test]
fn up_target_stops_at_the_root() {
    let mut tab = TabState::empty(1);
    tab.cwd = "/data/photos".to_string();
    assert_eq!(tab.up_target(HOME).as_deref(), Some("/data"));
    tab.cwd = "/".to_string();
    assert_eq!(tab.up_target(HOME), None);
}

#[test]
fn refresh_keeps_filter_and_cursor_by_name() {
    let mut tab = tab_with(&["alpha", "beta", "gamma"]);
    tab.selected = Some(1);
    tab.refresh(Ok(vec![entry("gamma", false), entry("new", false), entry("beta", false)]), None);
    assert_eq!(tab.cwd, "/data");
    assert_eq!(tab.selected, Some(2));
    assert_eq!(tab.entries.len(), 3);

    let mut tab = tab_with(&["alpha", "beta"]);
    tab.filter = "a".to_string();
    tab.selected = Some(0);
    tab.refresh(Ok(vec![entry("beta", false)]), None);
    assert_eq!(tab.filter, "a");
    assert_eq!(tab.selected, None);
}
