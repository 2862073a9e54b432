use arca::xdg::base::{cache_home, config_dirs, config_home, data_dirs, data_home, state_home};
use arca::xdg::user_dirs::{load_user_dirs, UserDirKind};

#[test]
fn test_base_directory_defaults() {
    let home = Some("/home/tester");
    assert!(data_home(None, home).starts_with('/'));
    assert!(config_home(None, home).starts_with('/'));
    assert!(cache_home(None, home).starts_with('/'));
    assert!(state_home(None, home).starts_with('/'));
    assert!(!data_dirs(None).is_empty());
    assert!(!config_dirs(None).is_empty());
}

#[test]
fn base_directories_follow_the_spec_defaults() {
    let home = Some("/home/tester");
    assert_eq!(data_home(None, home), "/home/tester/.local/share");
    assert_eq!(config_home(None, home), "/home/tester/.config");
    assert_eq!(cache_home(None, home), "/home/tester/.cache");
    assert_eq!(state_home(None, home), "/home/tester/.local/state");
    assert_eq!(data_home(Some("/x/data"), home), "/x/data");
    assert_eq!(data_dirs(None), vec!["/usr/local/share", "/usr/share"]);
    assert_eq!(config_dirs(None), vec!["/etc/xdg"]);
}

#[test]
fn test_user_dirs_parsing() {
    let content = "XDG_DESKTOP_DIR=\"$HOME/Desktop\"\nXDG_MUSIC_DIR=\"/srv/music\"\n";
    let dirs = load_user_dirs(content, Some("/home/tester"));
    assert!(!dirs.is_empty());
    for (_kind, path) in &dirs {
        assert!(path.starts_with('/'));
    }
    assert!(dirs.contains(&(UserDirKind::Desktop, "/home/tester/Desktop".to_string())));
    assert!(dirs.contains(&(UserDirKind::Music, "/srv/music".to_string())));
}
