use appguard::autostart::{
    parse_crontab_lines, parse_desktop_enabled, parse_desktop_exec, parse_unit_exec, toggle_hidden_contents,
    AutostartKind, AutostartManager, SourceFile,
};

fn desktop(dir: &str, name: &str, exec: &str, hidden: bool) -> SourceFile {
    let mut body = format!("[Desktop Entry]\nType=Application\nName={name}\nExec={exec}\n");
    if hidden {
        body.push_str("Hidden=true\n");
    }
    SourceFile { path: format!("{dir}/{name}"), contents: body }
}

fn unit(dir: &str, name: &str, exec: &str) -> SourceFile {
    let body = format!(
        "[Unit]\nDescription=Test\n\n[Service]\nExecStart={exec}\n\n[Install]\nWantedBy=default.target\n"
    );
    SourceFile { path: format!("{dir}/{name}"), contents: body }
}

#[test]
fn test_list_xdg_entries() {
    let mgr = AutostartManager::with_dirs("/tmp/x/autostart", "/tmp/x/systemd");
    let files = vec![
        desktop("/tmp/x/autostart", "steam.desktop", "/usr/bin/steam -silent", false),
        desktop("/tmp/x/autostart", "tracker.desktop", "/usr/lib/tracker-miner-fs", true),
    ];
    let entries = mgr.list_xdg(&files);
    assert_eq!(entries.len(), 2);
    let enabled: Vec<_> = entries.iter().filter(|e| e.enabled).collect();
    assert_eq!(enabled.len(), 1);
    assert_eq!(enabled[0].command, "/usr/bin/steam -silent");
}

#[test]
fn test_list_systemd_units() {
    let mgr = AutostartManager::with_dirs("/tmp/x/autostart", "/tmp/x/systemd");
    let files = vec![unit("/tmp/x/systemd", "backup.service", "/usr/local/bin/backup --daily")];
    let units = mgr.list_systemd_user(&files);
    assert_eq!(units.len(), 1);
    assert_eq!(units[0].command, "/usr/local/bin/backup --daily");
    assert_eq!(units[0].kind, AutostartKind::SystemdUser);
}

#[test]
fn test_detect_new_entries() {
    let dir = "/tmp/x/autostart";
    let mut mgr = AutostartManager::with_dirs(dir, "/tmp/x/systemd");
    let before = vec![desktop(dir, "known.desktop", "/usr/bin/known", false)];
    let baseline = mgr.list_all(&before, &[], None);
    mgr.snapshot_baseline(baseline);
    let after = vec![
        desktop(dir, "known.desktop", "/usr/bin/known", false),
        desktop(dir, "backdoor.desktop", "/tmp/.x/payload", false),
    ];
    let current = mgr.list_all(&after, &[], None);
    let new_entries = mgr.detect_new_entries(&current);
    assert_eq!(new_entries.len(), 1);
    assert_eq!(new_entries[0].identifier, "backdoor.desktop");
}

#[test]
fn test_disable_enable_xdg() {
    let dir = "/tmp/x/autostart";
    let mgr = AutostartManager::with_dirs(dir, "/tmp/x/systemd");
    let file = desktop(dir, "app.desktop", "/usr/bin/app", false);
    let (path, disabled) = mgr.disable_xdg("app.desktop", &file.contents);
    assert_eq!(path, "/tmp/x/autostart/app.desktop");
    let entries = mgr.list_xdg(&[SourceFile { path: path.clone(), contents: disabled.clone() }]);
    assert!(!entries[0].enabled, "should be disabled after disable_xdg");
    let (_, enabled) = mgr.enable_xdg("app.desktop", &disabled);
    let entries = mgr.list_xdg(&[SourceFile { path, contents: enabled }]);
    assert!(entries[0].enabled, "should be enabled after enable_xdg");
}

#[test]
fn crontab_lines_skip_comments_and_blanks() {
    let entries = parse_crontab_lines("# comment\n\n*/5 * * * * /usr/bin/job --flag\n@reboot /bin/x\n");
    assert_eq!(entries.len(), 2);
    assert_eq!(entries[0].command, "/usr/bin/job --flag");
    assert_eq!(entries[1].command, "@reboot /bin/x");
    assert_eq!(entries[0].kind, AutostartKind::Crontab);
    assert!(entries[0].path.is_none());
}

#[test]
fn desktop_parsing_details() {
    assert_eq!(parse_desktop_exec("Name=a\r\nExec=Exec=/bin/x\r\n"), "/bin/x");
    assert_eq!(parse_desktop_exec("Name=a\n"), "");
    assert!(!parse_desktop_enabled("Exec=x\n  Hidden=true  \n"));
    assert!(parse_desktop_enabled("Exec=x\nHidden=false\n"));
    assert_eq!(parse_unit_exec("[Service]\nExecStart=/usr/bin/svc\n"), "/usr/bin/svc");
}

#[test]
fn toggle_hidden_round_trip() {
    assert_eq!(toggle_hidden_contents("A=1\nHidden=true\nB=2", true), "A=1\nB=2\nHidden=true\n");
    assert_eq!(toggle_hidden_contents("A=1\nHidden=true\nB=2\n", false), "A=1\nB=2\n");
}

#[test]
fn non_matching_extensions_are_ignored() {
    let mgr = AutostartManager::with_home("/home/u");
    assert_eq!(mgr.xdg_autostart_dir(), "/home/u/.config/autostart");
    let files = vec![SourceFile { path: "/home/u/.config/autostart/readme.txt".into(), contents: "Exec=x\n".into() }];
    assert!(mgr.list_xdg(&files).is_empty());
}

#[test]
fn snapshot_then_nothing_new() {
    let dir = "/tmp/x/autostart";
    let mut mgr = AutostartManager::with_dirs(dir, "/tmp/x/systemd");
    let files = vec![
        desktop(dir, "a.desktop", "/usr/bin/a", false),
        desktop(dir, "b.desktop", "/usr/bin/b", true),
    ];
    let crontab = "0 5 * * * /usr/bin/backup\n";
    mgr.snapshot_baseline(mgr.list_all(&files, &[], Some(crontab)));
    let current = mgr.list_all(&files, &[], Some(crontab));
    assert!(mgr.detect_new_entries(&current).is_empty());
}

#[test]
fn without_baseline_everything_is_new() {
    let dir = "/tmp/x/autostart";
    let mgr = AutostartManager::with_dirs(dir, "/tmp/x/systemd");
    let files = vec![desktop(dir, "a.desktop", "/usr/bin/a", false)];
    let current = mgr.list_all(&files, &[], None);
    assert_eq!(mgr.detect_new_entries(&current).len(), 1);
}
