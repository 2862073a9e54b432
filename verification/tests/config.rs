use arca::engine::entry::SortKey;
use arca::lantern::config::{config_path, load, Config, ThemeMode, ViewMode};

#[test]
fn defaults_are_sane() {
    let cfg = Config::default();
    assert!(!cfg.show_hidden);
    assert_eq!(cfg.sort_key, SortKey::Name);
    assert!(cfg.sort_ascending);
    assert_eq!(cfg.theme, ThemeMode::System);
    assert_eq!(cfg.view_mode, ViewMode::List);
    assert!(cfg.bookmarks.is_empty());
}

#[test]
fn roundtrip() {
    let cfg = Config {
        show_hidden: true,
        sort_key: SortKey::Mtime,
        sort_ascending: false,
        theme: ThemeMode::Dark,
        view_mode: ViewMode::Miller,
        bookmarks: vec!["/tmp".into(), "/var/log".into()],
    };
    let text = cfg.to_str();
    let back = load(Some(&text));
    assert!(back.show_hidden);
    assert_eq!(back.sort_key, SortKey::Mtime);
    assert!(!back.sort_ascending);
    assert_eq!(back.theme, ThemeMode::Dark);
    assert_eq!(back.view_mode, ViewMode::Miller);
    assert_eq!(back.bookmarks, ["/tmp", "/var/log"]);
}

#[test]
fn unknown_keys_and_duplicates_are_tolerated() {
    let mut cfg = Config::default();
    cfg.apply_str("future_key = 1\nbookmark = /a\nbookmark = /a\n# comment\nbogus\n");
    assert_eq!(cfg.bookmarks, ["/a"]);
}

#[test]
fn missing_file_yields_defaults() {
    let cfg = load(None);
    let def = Config::default();
    assert_eq!(cfg.show_hidden, def.show_hidden);
    assert_eq!(cfg.sort_key, def.sort_key);
    assert_eq!(cfg.sort_ascending, def.sort_ascending);
    assert_eq!(cfg.theme, def.theme);
    assert_eq!(cfg.view_mode, def.view_mode);
    assert_eq!(cfg.bookmarks, def.bookmarks);
}

#[test]
fn config_path_prefers_xdg_config_home() {
    assert_eq!(config_path(Some("/cfg"), "/home/u"), "/cfg/lantern/lantern.conf");
    assert_eq!(config_path(None, "/home/u"), "/home/u/.config/lantern/lantern.conf");
}

#[test]
fn mode_names_roundtrip() {
    for mode in [ViewMode::List, ViewMode::Grid, ViewMode::Miller] {
        assert_eq!(ViewMode::from_str(mode.as_str()), mode);
    }
    for theme in [ThemeMode::System, ThemeMode::Light, ThemeMode::Dark] {
        assert_eq!(ThemeMode::from_str(theme.as_str()), theme);
    }
}
