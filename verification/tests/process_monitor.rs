use appguard::process_monitor::{
    cmdline_from_bytes, count_net_entries, parse_status_rss, parse_unsigned, pid_of_entry, snapshot_from,
    ProcFiles, ProcessMonitor, ProcessSnapshot,
};

struct MockProc {
    pid: u32,
    comm: String,
    cmdline: Vec<u8>,
    status: String,
    fd_count: usize,
    tcp: String,
    tcp6: String,
}

/// The files of a fake `/proc/<pid>` directory.
fn mock_proc(pid: u32, comm: &str, cmdline_args: &[&str], rss_kb: u64, fd_count: usize, net_lines: u32) -> MockProc {
    let cmdline: Vec<u8> = cmdline_args
        .iter()
        .flat_map(|a| {
            let mut v = a.as_bytes().to_vec();
            v.push(0);
            v
        })
        .collect();
    let status = format!("Name:\t{comm}\nState:\tS (sleeping)\nVmRSS:\t{rss_kb} kB\nPPid:\t1\n");
    let mut net = String::from("  sl  local_address ...\n");
    for _ in 0..net_lines {
        net.push_str("   0: 0100007F:1F90 00000000:0000 0A ...\n");
    }
    MockProc {
        pid,
        comm: format!("{comm}\n"),
        cmdline,
        status,
        fd_count,
        tcp: net,
        tcp6: "  sl  local_address ...\n".into(),
    }
}

fn scan(procs: &[MockProc]) -> Vec<ProcessSnapshot> {
    procs
        .iter()
        .filter_map(|m| {
            let files = ProcFiles {
                comm: Some(&m.comm),
                cmdline: Some(&m.cmdline),
                loginuid: Some("1000\n"),
                status: Some(&m.status),
                fd_count: Some(m.fd_count),
                tcp: Some(&m.tcp),
                tcp6: Some(&m.tcp6),
            };
            snapshot_from(m.pid, &files, 0)
        })
        .collect()
}

#[test]
fn test_scan_running_discovers_processes() {
    let procs = scan(&[
        mock_proc(100, "firefox", &["/usr/bin/firefox"], 512_000, 30, 5),
        mock_proc(200, "vim", &["/usr/bin/vim", "file.rs"], 8_000, 3, 0),
    ]);
    assert_eq!(procs.len(), 2);
    let names: Vec<&str> = procs.iter().map(|p| p.name.as_str()).collect();
    assert!(names.contains(&"firefox"));
    assert!(names.contains(&"vim"));
}

#[test]
fn test_find_by_name() {
    let mon = ProcessMonitor::with_root("/proc");
    let procs = scan(&[
        mock_proc(1, "firefox", &["/usr/bin/firefox"], 200_000, 5, 2),
        mock_proc(2, "firefox-esr", &["/usr/bin/firefox-esr"], 180_000, 5, 1),
        mock_proc(3, "bash", &["/usr/bin/bash"], 4_000, 2, 0),
    ]);
    let hits = mon.find_by_name(procs, "firefox");
    assert_eq!(hits.len(), 2);
}

#[test]
fn test_resource_hogs() {
    let mon = ProcessMonitor::new();
    let procs = scan(&[
        mock_proc(10, "chromium", &["/usr/bin/chromium"], 512_000, 50, 10),
        mock_proc(11, "cat", &["/usr/bin/cat"], 4_000, 1, 0),
    ]);
    let hogs = mon.resource_hogs(procs, 100);
    assert_eq!(hogs.len(), 1);
    assert_eq!(hogs[0].name, "chromium");
}

#[test]
fn test_network_active() {
    let mon = ProcessMonitor::new();
    let procs = scan(&[
        mock_proc(20, "curl", &["/usr/bin/curl", "https://example.com"], 3_000, 4, 3),
        mock_proc(21, "ls", &["/usr/bin/ls"], 1_000, 1, 0),
    ]);
    let active = mon.network_active(procs);
    assert_eq!(active.len(), 1);
    assert_eq!(active[0].name, "curl");
}

#[test]
fn test_suspicious_processes() {
    let mon = ProcessMonitor::new();
    let procs = scan(&[
        mock_proc(30, "systemd", &["/usr/lib/systemd/systemd"], 6_000, 10, 0),
        mock_proc(31, "dropper", &["/tmp/.hidden/dropper", "--connect"], 2_000, 5, 2),
        mock_proc(32, "miner", &["/dev/shm/xmrig"], 90_000, 3, 1),
    ]);
    let sus = mon.suspicious_processes(procs);
    assert_eq!(sus.len(), 2);
    let names: Vec<&str> = sus.iter().map(|p| p.name.as_str()).collect();
    assert!(names.contains(&"dropper"));
    assert!(names.contains(&"miner"));
}

#[test]
fn test_empty_proc_returns_empty() {
    assert!(scan(&[]).is_empty());
}

#[test]
fn snapshot_fields_from_mock_files() {
    let m = mock_proc(77, "curl", &["/usr/bin/curl", "-s", "https://x"], 3_000, 4, 3);
    let p = &scan(&[m])[0];
    assert_eq!(p.pid, 77);
    assert_eq!(p.name, "curl");
    assert_eq!(p.cmdline, "/usr/bin/curl -s https://x");
    assert_eq!(p.user, "1000");
    assert_eq!(p.mem_rss_kb, 3_000);
    assert_eq!(p.open_files, 4);
    assert_eq!(p.network_connections, 3);
}

#[test]
fn missing_files_give_defaults() {
    let files = ProcFiles { comm: Some("x"), cmdline: None, loginuid: None, status: None, fd_count: None, tcp: None, tcp6: None };
    let p = snapshot_from(5, &files, 9).unwrap();
    assert_eq!(p.user, "unknown");
    assert_eq!(p.cmdline, "");
    assert_eq!(p.mem_rss_kb, 0);
    assert_eq!(p.started_at, 9);
    let nameless = ProcFiles { comm: Some("  \n"), ..files };
    assert!(snapshot_from(5, &nameless, 9).is_none());
}

#[test]
fn number_parsing_follows_str_parse() {
    for s in ["0", "42", "+7", "4294967295", "", "+", "-1", "12a", "4294967296", " 1"] {
        assert_eq!(parse_unsigned(s, u32::MAX as u64), s.parse::<u32>().ok().map(|v| v as u64), "{s:?}");
        assert_eq!(pid_of_entry(s), s.parse::<u32>().ok(), "{s:?}");
    }
    assert_eq!(parse_unsigned("18446744073709551615", u64::MAX), Some(u64::MAX));
    assert_eq!(parse_unsigned("18446744073709551616", u64::MAX), None);
}

#[test]
fn status_and_net_parsing() {
    assert_eq!(parse_status_rss("Name:\tx\nVmRSS:\t  1234 kB\nVmRSS:\t5 kB\n"), 1234);
    assert_eq!(parse_status_rss("VmRSS:\n"), 0);
    assert_eq!(parse_status_rss("VmRSS: abc kB\n"), 0);
    assert_eq!(parse_status_rss("Name: x\n"), 0);
    assert_eq!(count_net_entries("header\n a\n\n   \n b\r\n"), 2);
    assert_eq!(count_net_entries(""), 0);
    assert_eq!(count_net_entries("header only"), 0);
    assert_eq!(cmdline_from_bytes(b"a\0b\xffc\0\0"), "a b\u{fffd}c");
    assert_eq!(cmdline_from_bytes(b""), "");
    let mon = ProcessMonitor::with_root("/tmp/proc");
    assert_eq!(mon.process_dir(12), "/tmp/proc/12");
    assert_eq!(mon.proc_root(), "/tmp/proc");
}

#[test]
fn resource_hogs_excludes_exact_threshold() {
    let mon = ProcessMonitor::new();
    let procs = scan(&[
        mock_proc(30, "edge", &["/usr/bin/edge"], 100 * 1024, 1, 0),
        mock_proc(31, "over", &["/usr/bin/over"], 100 * 1024 + 1, 1, 0),
    ]);
    let hogs = mon.resource_hogs(procs, 100);
    assert_eq!(hogs.len(), 1);
    assert_eq!(hogs[0].name, "over");
}
