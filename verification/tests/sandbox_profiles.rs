use appguard::sandbox_profiles::{ProfileRegistry, ProfileTemplate};

#[test]
fn test_default_profiles() {
    let reg = ProfileRegistry::new();
    assert!(reg.count() >= 6);
}

#[test]
fn test_get_browser_profile() {
    let reg = ProfileRegistry::new();
    let p = reg.get("web-browser").unwrap();
    assert!(p.allow_network);
    assert!(p.allow_x11);
    assert!(!p.allow_camera);
}

#[test]
fn test_text_editor_no_network() {
    let reg = ProfileRegistry::new();
    let p = reg.get("text-editor").unwrap();
    assert!(!p.allow_network);
}

#[test]
fn test_communication_full_access() {
    let reg = ProfileRegistry::new();
    let p = reg.get("communication").unwrap();
    assert!(p.allow_camera);
    assert!(p.allow_microphone);
}

#[test]
fn test_untrusted_lockdown() {
    let reg = ProfileRegistry::new();
    let p = reg.get("untrusted").unwrap();
    assert!(!p.allow_network);
    assert!(!p.allow_dbus);
    assert!(p.allow_filesystem_read.is_empty());
}

#[test]
fn test_add_custom() {
    let mut reg = ProfileRegistry::new();
    let count = reg.count();
    reg.add(ProfileTemplate {
        name: "custom".into(),
        description: "test".into(),
        allow_network: false,
        allow_filesystem_read: vec![],
        allow_filesystem_write: vec![],
        deny_filesystem: vec![],
        allow_dbus: false,
        allow_x11: false,
        allow_audio: false,
        allow_camera: false,
        allow_microphone: false,
    });
    assert_eq!(reg.count(), count + 1);
}

#[test]
fn unknown_profile_is_absent() {
    let reg = ProfileRegistry::new();
    assert!(reg.get("no-such-profile").is_none());
    assert_eq!(reg.list().len(), reg.count());
}

#[test]
fn added_duplicate_name_keeps_first_profile() {
    let mut reg = ProfileRegistry::new();
    let count = reg.count();
    reg.add(ProfileTemplate {
        name: "web-browser".into(),
        description: "shadow".into(),
        allow_network: false,
        allow_filesystem_read: vec![],
        allow_filesystem_write: vec![],
        deny_filesystem: vec![],
        allow_dbus: false,
        allow_x11: false,
        allow_audio: false,
        allow_camera: false,
        allow_microphone: false,
    });
    assert_eq!(reg.count(), count + 1);
    let p = reg.get("web-browser").unwrap();
    assert!(p.allow_network);
    assert_ne!(p.description, "shadow");
    assert_eq!(reg.list()[count].description, "shadow");
}
