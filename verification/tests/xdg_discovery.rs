use arca::xdg::associations::{desktop_names, mimeapps_files};
use arca::xdg::desktop::{add_discovered, application_dirs, DesktopEntry};

#[test]
fn desktop_names_from_current_desktop() {
    assert_eq!(desktop_names("GNOME: ubuntu :"), vec!["gnome", "GNOME", "ubuntu"]);
    assert!(desktop_names("").is_empty());
}

#[test]
fn mimeapps_files_in_order() {
    let desktops = vec!["kde".to_string()];
    let files = mimeapps_files(
        &desktops,
        "/home/u/.config",
        &vec!["/etc/xdg".to_string()],
        "/home/u/.local/share",
        &vec!["/usr/share".to_string()],
    );
    assert_eq!(
        files,
        vec![
            "/home/u/.config/kde-mimeapps.list",
            "/home/u/.config/mimeapps.list",
            "/etc/xdg/kde-mimeapps.list",
            "/etc/xdg/mimeapps.list",
            "/home/u/.local/share/applications/kde-mimeapps.list",
            "/home/u/.local/share/applications/mimeapps.list",
            "/usr/share/applications/kde-mimeapps.list",
            "/usr/share/applications/mimeapps.list",
        ]
    );
}

#[test]
fn discovery_keeps_the_last_entry_per_id() {
    assert_eq!(
        application_dirs("/home/u/.local/share", &vec!["/usr/share".to_string()]),
        vec!["/usr/share/applications", "/home/u/.local/share/applications"]
    );
    let mut apps: Vec<DesktopEntry> = Vec::new();
    let app = "[Desktop Entry]\nType=Application\nName=Editor\nExec=edit %f\n";
    add_discovered(&mut apps, "/usr/share/applications/edit.desktop", app);
    assert_eq!(apps.len(), 1);
    assert_eq!(apps[0].name, "Editor");
    let newer = "[Desktop Entry]\nType=Application\nName=Editor 2\nExec=edit %f\n";
    add_discovered(&mut apps, "/home/u/.local/share/applications/edit.desktop", newer);
    assert_eq!(apps.len(), 1);
    assert_eq!(apps[0].name, "Editor 2");
    let hidden = "[Desktop Entry]\nType=Application\nName=H\nExec=h\nHidden=true\n";
    add_discovered(&mut apps, "/usr/share/applications/h.desktop", hidden);
    add_discovered(&mut apps, "/usr/share/applications/readme.txt", app);
    assert_eq!(apps.len(), 1);
}
