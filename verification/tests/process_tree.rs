use appguard::process_tree::{AppProcess, AppProcessTree};

fn make_proc(pid: u32, app: &str, ppid: u32) -> AppProcess {
    AppProcess { pid, app_id: app.into(), exe_path: format!("/usr/bin/{app}"), parent_pid: ppid }
}

#[test]
fn test_register() {
    let mut tree = AppProcessTree::new();
    tree.register(make_proc(100, "firefox", 1));
    assert_eq!(tree.process_count(), 1);
    assert_eq!(tree.app_count(), 1);
}

#[test]
fn test_processes_for_app() {
    let mut tree = AppProcessTree::new();
    tree.register(make_proc(100, "firefox", 1));
    tree.register(make_proc(101, "firefox", 100));
    tree.register(make_proc(200, "vim", 1));
    assert_eq!(tree.processes_for("firefox").len(), 2);
    assert_eq!(tree.processes_for("vim").len(), 1);
}

#[test]
fn test_app_for_pid() {
    let mut tree = AppProcessTree::new();
    tree.register(make_proc(100, "firefox", 1));
    assert_eq!(tree.app_for(100), Some("firefox"));
    assert_eq!(tree.app_for(999), None);
}

#[test]
fn test_children_of() {
    let mut tree = AppProcessTree::new();
    tree.register(make_proc(100, "firefox", 1));
    tree.register(make_proc(101, "firefox", 100));
    tree.register(make_proc(102, "firefox", 100));
    assert_eq!(tree.children_of(100).len(), 2);
}

#[test]
fn test_unregister() {
    let mut tree = AppProcessTree::new();
    tree.register(make_proc(100, "firefox", 1));
    tree.unregister(100);
    assert_eq!(tree.process_count(), 0);
    assert!(tree.processes_for("firefox").is_empty());
}

#[test]
fn test_top_processes() {
    let mut tree = AppProcessTree::new();
    for i in 1..=5 {
        tree.register(make_proc(i, "firefox", 1));
    }
    for i in 6..=7 {
        tree.register(make_proc(i, "vim", 1));
    }
    let top = tree.top_processes(1);
    assert_eq!(top[0].0, "firefox");
    assert_eq!(top[0].1, 5);
}

#[test]
fn test_no_duplicate() {
    let mut tree = AppProcessTree::new();
    tree.register(make_proc(100, "firefox", 1));
    tree.register(make_proc(100, "firefox", 1));
    assert_eq!(tree.process_count(), 1);
}

#[test]
fn register_then_unregister_forgets_app() {
    let mut tree = AppProcessTree::new();
    tree.register(make_proc(7, "editor", 1));
    assert_eq!(tree.app_for(7), Some("editor"));
    tree.unregister(7);
    assert_eq!(tree.app_for(7), None);
    assert_eq!(tree.app_count(), 1);
    assert!(tree.processes_for("editor").is_empty());
}

#[test]
fn reregistered_pid_moves_to_new_app() {
    let mut tree = AppProcessTree::new();
    tree.register(make_proc(100, "a", 1));
    tree.register(make_proc(100, "b", 1));
    assert!(tree.processes_for("a").is_empty());
    let b = tree.processes_for("b");
    assert_eq!(b.len(), 1);
    assert_eq!(b[0].app_id, "b");
    assert_eq!(tree.app_for(100), Some("b"));
    assert_eq!(tree.process_count(), 1);
    let top = tree.top_processes(2);
    assert_eq!(top[0], ("b".to_string(), 1));
    assert_eq!(top[1], ("a".to_string(), 0));
}
