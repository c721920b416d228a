use devignite::doctor::{
    summarize, DevIgniteDoctor, DiagnosticIssue, DiagnosticObservations, IssueSeverity, NamedEntry,
    PathDirListing,
};
use devignite::symlink_engine::{SymlinkEngine, SymlinkHealth};

fn doctor() -> DevIgniteDoctor {
    DevIgniteDoctor::new(SymlinkEngine::new("/home/u", false))
}

fn named(name: &str, path: &str) -> NamedEntry {
    NamedEntry { name: Some(name.into()), path: path.into() }
}

fn sev(i: &DiagnosticIssue) -> &'static str {
    i.severity.as_str()
}

#[test]
fn severity_names() {
    assert_eq!(IssueSeverity::Healthy.as_str(), "ok");
    assert_eq!(IssueSeverity::Warning.as_str(), "warning");
    assert_eq!(IssueSeverity::Error.as_str(), "error");
    assert_eq!(IssueSeverity::Fixed.as_str(), "fixed");
}

#[test]
fn integrity_creates_missing_directories() {
    let d = doctor();
    assert_eq!(d.integrity_fixes(false, true), vec!["/home/u/.devignite/bin"]);
    assert_eq!(d.integrity_fixes(false, false), vec!["/home/u/.devignite/bin", "/home/u/.devignite/runtimes"]);
    assert!(d.integrity_fixes(true, true).is_empty());
    let issues = d.check_sandbox_integrity(false, true);
    assert_eq!(issues.len(), 2);
    assert_eq!(sev(&issues[0]), "fixed");
    assert!(issues[0].fix_applied && issues[0].fixable);
    assert_eq!(issues[0].description, "Sandbox bin directory does not exist");
    assert_eq!(issues[1].description, "Runtimes directory exists");
    assert_eq!(issues[1].affected_path.as_deref(), Some("/home/u/.devignite/runtimes"));
}

#[test]
fn symlink_health_issues() {
    let d = doctor();
    let hs = vec![
        SymlinkHealth { symlink_path: "/b/node".into(), target_path: "/r/node".into(), is_valid: true },
        SymlinkHealth { symlink_path: "/b/go".into(), target_path: "/gone".into(), is_valid: false },
    ];
    let issues = d.check_symlink_health(&Ok(hs));
    assert_eq!(issues[0].description, "Symlink OK: /b/node -> /r/node");
    assert_eq!(issues[1].description, "Broken symlink: /b/go -> /gone (target missing)");
    assert_eq!(sev(&issues[1]), "warning");
    assert!(issues[1].fixable);
    let issues = d.check_symlink_health(&Err("denied".into()));
    assert_eq!(issues.len(), 1);
    assert_eq!(issues[0].description, "Failed to verify symlinks: denied");
    assert_eq!(sev(&issues[0]), "error");
    assert!(issues[0].affected_path.is_none());
    assert!(d.check_symlink_health(&Ok(vec![])).is_empty());
}

#[test]
fn shadowed_binaries_use_the_last_path_directory() {
    let d = doctor();
    let dirs = vec![
        PathDirListing { exists: true, is_sandbox: false, entries: Some(vec![named("node.exe", "/usr/bin/node.exe")]) },
        PathDirListing { exists: true, is_sandbox: true, entries: Some(vec![named("go", "/sandbox/go")]) },
        PathDirListing { exists: false, is_sandbox: false, entries: Some(vec![named("go", "/nope/go")]) },
        PathDirListing { exists: true, is_sandbox: false, entries: Some(vec![named("node", "/opt/node")]) },
    ];
    let sandbox = Some(vec![named("node", "/b/node"), named("go", "/b/go"), NamedEntry { name: None, path: "/b/?".into() }]);
    let issues = d.check_shadowed_binaries(&dirs, &sandbox);
    assert_eq!(issues.len(), 1);
    assert_eq!(issues[0].description, "System binary 'node' at /opt/node may shadow DevIgnite's managed version");
    assert_eq!(issues[0].affected_path.as_deref(), Some("/opt/node"));
    let none = d.check_shadowed_binaries(&dirs, &None);
    assert_eq!(none[0].description, "No shadowed binaries detected");
    assert_eq!(sev(&none[0]), "ok");
}

#[test]
fn temp_files_are_reported_and_cleared() {
    let d = doctor();
    let issues = d.check_orphaned_temp_files(true, 12, "3.50");
    assert_eq!(issues[0].description, "Found 12 orphaned temp files (3.50 MB) in /home/u/.devignite/temp");
    assert_eq!(sev(&issues[0]), "fixed");
    assert_eq!(d.temp_fix(true, 12).as_deref(), Some("/home/u/.devignite/temp"));
    assert!(d.temp_fix(true, 0).is_none());
    assert_eq!(d.check_orphaned_temp_files(true, 0, "0.00")[0].description, "No orphaned temp files found");
    assert_eq!(d.check_orphaned_temp_files(false, 0, "0.00")[0].description, "No temp directory exists");
    assert_eq!(d.check_orphaned_temp_files(true, 1_000_007, "1.00")[0].description,
        "Found 1000007 orphaned temp files (1.00 MB) in /home/u/.devignite/temp");
}

#[test]
fn path_state_matches_path_manager() {
    let d = doctor();
    let ok = d.check_path_state("/usr/bin; /home/u/.devignite/bin");
    assert_eq!(sev(&ok[0]), "ok");
    assert_eq!(ok[0].description, "Sandbox bin directory is in system PATH");
    let bad = d.check_path_state("/usr/bin");
    assert_eq!(sev(&bad[0]), "error");
    assert!(bad[0].fixable);
    assert_eq!(bad[0].description, "Sandbox bin directory is NOT in system PATH");
}

#[test]
fn disk_usage_threshold_is_ten_thousand_mebibytes() {
    let d = doctor();
    assert_eq!(sev(&d.check_disk_space(true, 10_485_760_000, "10000.00")[0]), "ok");
    assert_eq!(sev(&d.check_disk_space(true, 10_485_760_001, "10000.00")[0]), "warning");
    assert_eq!(d.check_disk_space(true, 0, "0.00")[0].description, "Total runtime disk usage: 0.00 MB");
    assert!(d.check_disk_space(false, 5, "0.00").is_empty());
}

#[test]
fn full_report_and_summary() {
    let d = doctor();
    let obs = DiagnosticObservations {
        timestamp: "2024-01-01T00:00:00+00:00".into(),
        bin_dir_existed: true,
        runtimes_dir_existed: false,
        symlink_health: Ok(vec![SymlinkHealth { symlink_path: "/b/x".into(), target_path: "".into(), is_valid: false }]),
        path_var: "/usr/bin".into(),
        path_dirs: vec![],
        sandbox_entries: Some(vec![]),
        temp_dir_exists: false,
        temp_file_count: 0,
        temp_size_mb_text: "0.00".into(),
        runtimes_dir_exists: true,
        runtimes_total_bytes: 4096,
        runtimes_size_mb_text: "0.00".into(),
    };
    let r = d.run_full_diagnostic(&obs);
    assert_eq!(r.timestamp, "2024-01-01T00:00:00+00:00");
    let cats: Vec<&str> = r.issues.iter().map(|i| i.category.as_str()).collect();
    assert_eq!(cats, vec!["sandbox_integrity", "sandbox_integrity", "symlink_health", "shadowed_binary", "orphaned_temp", "path_state", "disk_usage"]);
    assert_eq!(r.summary.total_checks, 7);
    assert_eq!(r.summary.passed, 4);
    assert_eq!(r.summary.warnings, 1);
    assert_eq!(r.summary.errors, 1);
    assert_eq!(r.summary.fixed, 1);
    let s = summarize(&r.issues);
    assert_eq!(s.passed + s.warnings + s.errors + s.fixed, s.total_checks);
}
