use appguard::app_inventory::{parse_desktop_entry, AppInventory, InstallSource, InstalledApp};
use appguard::autostart::SourceFile;

fn make_app(name: &str, source: InstallSource) -> InstalledApp {
    InstalledApp {
        name: name.into(),
        version: "1.0".into(),
        source,
        desktop_file: None,
        exec_path: None,
        install_size_bytes: 1000,
        last_used: None,
        categories: vec!["Utility".into()],
        autostart: false,
    }
}

#[test]
fn test_register_and_count() {
    let mut inv = AppInventory::new();
    inv.register(make_app("firefox", InstallSource::Dpkg));
    inv.register(make_app("vim", InstallSource::Dpkg));
    assert_eq!(inv.count(), 2);
}

#[test]
fn app_inventory_test_by_source() {
    let mut inv = AppInventory::new();
    inv.register(make_app("firefox", InstallSource::Dpkg));
    inv.register(make_app("signal", InstallSource::Flatpak));
    assert_eq!(inv.by_source(&InstallSource::Dpkg).len(), 1);
    assert_eq!(inv.by_source(&InstallSource::Flatpak).len(), 1);
}

#[test]
fn test_search() {
    let mut inv = AppInventory::new();
    inv.register(make_app("Firefox", InstallSource::Dpkg));
    inv.register(make_app("Chromium", InstallSource::Dpkg));
    assert_eq!(inv.search("fire").len(), 1);
    assert_eq!(inv.search("xyz").len(), 0);
}

#[test]
fn test_by_category() {
    let mut inv = AppInventory::new();
    let mut app = make_app("gimp", InstallSource::Dpkg);
    app.categories = vec!["Graphics".into(), "2DGraphics".into()];
    inv.register(app);
    assert_eq!(inv.by_category("graphics").len(), 1);
}

#[test]
fn test_total_size() {
    let mut inv = AppInventory::new();
    inv.register(make_app("a", InstallSource::Dpkg));
    inv.register(make_app("b", InstallSource::Dpkg));
    assert_eq!(inv.total_size(), 2000);
}

#[test]
fn test_scan_desktop_entries() {
    let mut inv = AppInventory::new();
    inv.scan_desktop_entries(&[]);
    let _ = inv.count();
}

#[test]
fn test_source_stats() {
    let mut inv = AppInventory::new();
    inv.register(make_app("a", InstallSource::Dpkg));
    inv.register(make_app("b", InstallSource::Dpkg));
    inv.register(make_app("c", InstallSource::Snap));
    let stats = inv.source_stats();
    let get = |s: InstallSource| stats.iter().find(|(k, _)| *k == s).map(|(_, n)| *n);
    assert_eq!(get(InstallSource::Dpkg), Some(2));
    assert_eq!(get(InstallSource::Snap), Some(1));
    assert_eq!(get(InstallSource::Pip), None);
}

#[test]
fn register_replaces_an_app_of_the_same_name() {
    let mut inv = AppInventory::new();
    inv.register(make_app("a", InstallSource::Dpkg));
    let mut b = make_app("a", InstallSource::Snap);
    b.install_size_bytes = 5;
    inv.register(b);
    assert_eq!(inv.count(), 1);
    assert_eq!(inv.get("a").unwrap().source, InstallSource::Snap);
    assert_eq!(inv.total_size(), 5);
    assert!(inv.get("b").is_none());
}

#[test]
fn desktop_entry_fields_are_parsed() {
    let contents = "[Desktop Entry]\nName=Text Editor\nName=Other\nExec=  /usr/bin/gedit %U\nCategories=GNOME;;Utility;\n";
    let app = parse_desktop_entry("/usr/share/applications/gedit.desktop", contents).unwrap();
    assert_eq!(app.name, "Text Editor");
    assert_eq!(app.exec_path.as_deref(), Some("/usr/bin/gedit"));
    assert_eq!(app.categories, vec!["GNOME".to_string(), "Utility".to_string()]);
    assert_eq!(app.desktop_file.as_deref(), Some("/usr/share/applications/gedit.desktop"));
    assert_eq!(app.source, InstallSource::Dpkg);
    assert_eq!(app.version, "");
}

#[test]
fn desktop_entry_without_name_is_skipped() {
    assert!(parse_desktop_entry("/x.desktop", "Exec=/bin/true\n").is_none());
    assert!(parse_desktop_entry("/x.desktop", "Name=\nExec=\n").is_none());
    let app = parse_desktop_entry("/x.desktop", "Name=\nName=Late\nExec=\n").unwrap();
    assert_eq!(app.name, "Late");
    assert_eq!(app.exec_path, None);
}

#[test]
fn scan_registers_only_desktop_files() {
    let mut inv = AppInventory::new();
    let files = vec![
        SourceFile { path: "/a/one.desktop".into(), contents: "Name=One\r\nExec=one\r\n".into() },
        SourceFile { path: "/a/two.txt".into(), contents: "Name=Two\n".into() },
        SourceFile { path: "/a/three.desktop".into(), contents: "Exec=three\n".into() },
    ];
    inv.scan_desktop_entries(&files);
    assert_eq!(inv.count(), 1);
    assert_eq!(inv.get("One").unwrap().exec_path.as_deref(), Some("one"));
    assert_eq!(inv.autostart_apps().len(), 0);
}
