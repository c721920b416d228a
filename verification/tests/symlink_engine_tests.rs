use devignite::symlink_engine::{
    binary_candidates, discover_runtime_binaries, extension_of, find_binary_in_dir, is_executable,
    BinEntry, BinEntryKind, BinaryLink, BinaryListing, DirEntryInfo, LinkObservation, SandboxAction,
    SandboxError, SymlinkEngine, WalkedEntry,
};

fn engine() -> SymlinkEngine {
    SymlinkEngine::new("/home/u", false)
}

fn obs(exists: bool, candidates: Vec<bool>, walked: Vec<(&str, Option<&str>)>, link: bool) -> LinkObservation {
    LinkObservation {
        runtime_dir_exists: exists,
        candidates_exist: candidates,
        walked: walked
            .into_iter()
            .map(|(p, n)| WalkedEntry { path: p.into(), name: n.map(|s| s.to_string()) })
            .collect(),
        link_present: link,
    }
}

fn entry(name: &str, is_file: bool, mode: Option<u32>) -> DirEntryInfo {
    DirEntryInfo { name: Some(name.into()), is_file, mode }
}

#[test]
fn layout() {
    let e = engine();
    assert_eq!(e.sandbox_root(), "/home/u/.devignite");
    assert_eq!(e.bin_dir(), "/home/u/.devignite/bin");
    assert_eq!(e.runtimes_dir(), "/home/u/.devignite/runtimes");
    assert_eq!(e.runtime_path("python", "3.12.1"), "/home/u/.devignite/runtimes/python/3.12.1");
    assert_eq!(e.language_dir("python"), "/home/u/.devignite/runtimes/python");
    assert_eq!(e.link_path("python3"), "/home/u/.devignite/bin/python3");
    assert_eq!(e.search_dirs("/r", true), vec!["/r/bin", "/r"]);
    assert_eq!(e.search_dirs("/r", false), vec!["/r"]);
}

#[test]
fn candidates_per_platform() {
    assert_eq!(binary_candidates("/r", "node", false), vec!["/r/node"]);
    assert_eq!(
        binary_candidates("C:\\r", "node", true),
        vec!["C:\\r\\node.exe", "C:\\r\\node", "C:\\r\\node.cmd", "C:\\r\\node.bat"]
    );
}

#[test]
fn finding_a_binary() {
    assert_eq!(find_binary_in_dir("C:\\r", "node", true, &vec![false, true, true, false], &vec![]).ok().unwrap(), "C:\\r\\node");
    let walked = obs(true, vec![], vec![("/r/x", None), ("/r/lib", Some("lib")), ("/r/bin/node.exe", Some("node.exe"))], false).walked;
    assert_eq!(find_binary_in_dir("/r", "node", false, &vec![false], &walked).ok().unwrap(), "/r/bin/node.exe");
    match find_binary_in_dir("/r", "node", false, &vec![false], &vec![]) {
        Err(SandboxError::BinaryNotFound { binary, dir }) => {
            assert_eq!(binary, "node");
            assert_eq!(dir, "/r");
        }
        _ => panic!("expected not found"),
    }
}

#[test]
fn create_symlink_replaces_an_existing_link() {
    let e = engine();
    let plan = e.create_symlink("node", "20", "node", &obs(true, vec![true], vec![], true)).ok().unwrap();
    assert_eq!(plan.link, "/home/u/.devignite/bin/node");
    assert_eq!(plan.actions.len(), 2);
    assert!(matches!(&plan.actions[0], SandboxAction::RemoveLink(p) if p == "/home/u/.devignite/bin/node"));
    assert!(matches!(&plan.actions[1], SandboxAction::CreateLink { source, link }
        if source == "/home/u/.devignite/runtimes/node/20/node" && link == "/home/u/.devignite/bin/node"));
    let plan = e.create_symlink("node", "20", "node", &obs(true, vec![true], vec![], false)).ok().unwrap();
    assert_eq!(plan.actions.len(), 1);
}

#[test]
fn create_symlink_errors() {
    let e = engine();
    assert!(matches!(e.create_symlink("node", "20", "node", &obs(false, vec![true], vec![], false)),
        Err(SandboxError::RuntimeDirMissing(ref d)) if d == "/home/u/.devignite/runtimes/node/20"));
    assert!(matches!(e.create_symlink("node", "20", "node", &obs(true, vec![false], vec![], false)),
        Err(SandboxError::BinaryNotFound { .. })));
}

#[test]
fn remove_symlink_only_when_present() {
    let e = engine();
    assert!(e.remove_symlink("go", false).is_empty());
    let r = e.remove_symlink("go", true);
    assert!(matches!(&r[0], SandboxAction::RemoveLink(p) if p == "/home/u/.devignite/bin/go"));
    let created = e.create_symlink("go", "1.22", "go", &obs(true, vec![true], vec![], false)).ok().unwrap();
    assert!(matches!(&r[0], SandboxAction::RemoveLink(p) if *p == created.link));
}

#[test]
fn remove_all_for_runtime() {
    let e = engine();
    let bins = vec![
        BinaryLink { name: "node".into(), link_present: true },
        BinaryLink { name: "npm".into(), link_present: false },
        BinaryLink { name: "npx".into(), link_present: true },
    ];
    let r = e.remove_all_symlinks_for_runtime(true, &bins);
    assert_eq!(r.len(), 2);
    assert!(matches!(&r[1], SandboxAction::RemoveLink(p) if p.ends_with("/bin/npx")));
    assert!(e.remove_all_symlinks_for_runtime(false, &bins).is_empty());
}

#[test]
fn discovery_dedups_executable_stems() {
    let listing = BinaryListing {
        dirs: vec![
            vec![entry("node", true, Some(0o755)), entry("README.md", true, Some(0o644)), entry("npm.sh", true, Some(0o700))],
            vec![entry("node", true, Some(0o755)), entry("lib", false, Some(0o755)), entry("corepack", true, None)],
        ],
    };
    assert_eq!(discover_runtime_binaries(&listing, false), vec!["node", "npm"]);
    let win = BinaryListing {
        dirs: vec![vec![entry("node.exe", true, None), entry("npm.cmd", true, None), entry("README", true, None), entry("x.ps1", true, None)]],
    };
    assert_eq!(discover_runtime_binaries(&win, true), vec!["node", "npm", "x"]);
}

#[test]
fn executables_and_extensions() {
    assert!(is_executable(&entry("a", true, Some(0o100)), false));
    assert!(!is_executable(&entry("a", true, Some(0o644)), false));
    assert!(is_executable(&entry("a.BAT", true, None), true) == false);
    assert!(is_executable(&entry("a.bat", true, None), true));
    assert_eq!(extension_of("a.tar.gz").as_deref(), Some("gz"));
    assert_eq!(extension_of(".bashrc"), None);
    assert_eq!(extension_of("noext"), None);
    assert_eq!(extension_of("a."), Some(String::new()));
}

#[test]
fn switch_links_every_binary() {
    let e = engine();
    let bins = vec![
        ("node".to_string(), obs(true, vec![true], vec![], true)),
        ("npm".to_string(), obs(true, vec![false], vec![("/w/npm", Some("npm"))], false)),
    ];
    let plan = e.switch_version("node", "22", true, &bins);
    assert!(plan.error.is_none());
    assert_eq!(plan.created, vec!["/home/u/.devignite/bin/node", "/home/u/.devignite/bin/npm"]);
    assert_eq!(plan.actions.len(), 3);
    assert!(matches!(&plan.actions[2], SandboxAction::CreateLink { source, .. } if source == "/w/npm"));
}

#[test]
fn switch_stops_at_the_first_missing_binary() {
    let e = engine();
    let bins = vec![
        ("a".to_string(), obs(true, vec![true], vec![], false)),
        ("b".to_string(), obs(true, vec![false], vec![], false)),
        ("c".to_string(), obs(true, vec![true], vec![], false)),
    ];
    let plan = e.switch_version("x", "1", true, &bins);
    assert_eq!(plan.created.len(), 1);
    assert_eq!(plan.actions.len(), 1);
    assert!(matches!(plan.error, Some(SandboxError::BinaryNotFound { ref binary, .. }) if binary == "b"));
    let plan = e.switch_version("x", "9", false, &bins);
    assert!(plan.actions.is_empty());
    assert!(matches!(plan.error, Some(SandboxError::TargetVersionMissing(ref d)) if d.ends_with("/runtimes/x/9")));
}

#[test]
fn symlink_health() {
    let e = engine();
    let entries = vec![
        BinEntry { path: "/b/node".into(), kind: BinEntryKind::Symlink { target: "/r/node".into(), target_exists: true } },
        BinEntry { path: "/b/old".into(), kind: BinEntryKind::Symlink { target: "/gone".into(), target_exists: false } },
        BinEntry { path: "/b/dir".into(), kind: BinEntryKind::Other },
        BinEntry { path: "/b/tool".into(), kind: BinEntryKind::File },
    ];
    let h = e.verify_symlinks(true, &entries);
    assert_eq!(h.len(), 3);
    assert!(h[0].is_valid && !h[1].is_valid && h[2].is_valid);
    assert_eq!(h[1].target_path, "/gone");
    assert_eq!(h[2].target_path, "");
    assert!(e.verify_symlinks(false, &entries).is_empty());
}

#[test]
fn restore_keeps_going_after_a_failure() {
    let e = engine();
    let active = vec![
        ("python".to_string(), "3.12".to_string(), "python3".to_string()),
        ("node".to_string(), "20".to_string(), "node".to_string()),
    ];
    let r = e.restore_all_symlinks(&active, &vec![obs(false, vec![], vec![], false), obs(true, vec![true], vec![], false)]);
    assert_eq!(r.len(), 2);
    assert!(matches!(r[0], Err(SandboxError::RuntimeDirMissing(_))));
    assert!(matches!(&r[1], Ok(p) if p.link == "/home/u/.devignite/bin/node"));
}

#[test]
fn cleanup_plan_names_the_runtime_and_language_dirs() {
    let e = engine();
    let plan = e.cleanup_runtime("go", "1.22", true);
    assert_eq!(plan.runtime_dir.as_deref(), Some("/home/u/.devignite/runtimes/go/1.22"));
    assert_eq!(plan.language_dir, "/home/u/.devignite/runtimes/go");
    let plan = e.cleanup_runtime("go", "1.22", false);
    assert!(plan.runtime_dir.is_none());
    assert_eq!(plan.language_dir, "/home/u/.devignite/runtimes/go");
}

#[test]
fn restore_relinks_a_repeated_binary_so_the_last_entry_wins() {
    let e = engine();
    let active = vec![
        ("python".to_string(), "3.11".to_string(), "python3".to_string()),
        ("python".to_string(), "3.12".to_string(), "python3".to_string()),
    ];
    let r = e.restore_all_symlinks(&active, &vec![obs(true, vec![true], vec![], false), obs(true, vec![true], vec![], false)]);
    let first = r[0].as_ref().ok().unwrap();
    assert_eq!(first.actions.len(), 1);
    let second = r[1].as_ref().ok().unwrap();
    assert_eq!(second.actions.len(), 2);
    assert!(matches!(&second.actions[0], SandboxAction::RemoveLink(p) if p == "/home/u/.devignite/bin/python3"));
    assert!(matches!(&second.actions[1], SandboxAction::CreateLink { source, .. }
        if source == "/home/u/.devignite/runtimes/python/3.12/python3"));
}

#[test]
fn restore_does_not_count_a_failed_entry_as_linked() {
    let e = engine();
    let active = vec![
        ("python".to_string(), "3.11".to_string(), "python3".to_string()),
        ("python".to_string(), "3.12".to_string(), "python3".to_string()),
    ];
    let r = e.restore_all_symlinks(&active, &vec![obs(false, vec![], vec![], false), obs(true, vec![true], vec![], false)]);
    assert!(r[0].is_err());
    assert_eq!(r[1].as_ref().ok().unwrap().actions.len(), 1);
}

#[test]
fn windows_layout_and_links() {
    let e = SymlinkEngine::new("C:\\Users\\u", true);
    assert_eq!(e.bin_dir(), "C:\\Users\\u\\.devignite\\bin");
    assert_eq!(e.runtime_path("node", "20"), "C:\\Users\\u\\.devignite\\runtimes\\node\\20");
    let plan = e.create_symlink("node", "20", "node", &obs(true, vec![true], vec![], false)).ok().unwrap();
    assert_eq!(plan.link, "C:\\Users\\u\\.devignite\\bin\\node");
    assert!(matches!(&plan.actions[0], SandboxAction::CreateLink { source, .. }
        if source == "C:\\Users\\u\\.devignite\\runtimes\\node\\20\\node.exe"));
}

#[test]
fn switching_back_makes_the_same_links() {
    let e = engine();
    let fresh = vec![
        ("node".to_string(), obs(true, vec![true], vec![], false)),
        ("npm".to_string(), obs(true, vec![false], vec![("/w/npm", Some("npm"))], false)),
    ];
    let again = vec![
        ("node".to_string(), obs(true, vec![true], vec![], true)),
        ("npm".to_string(), obs(true, vec![false], vec![("/w/npm", Some("npm"))], true)),
    ];
    let first = e.switch_version("node", "20", true, &fresh);
    let back = e.switch_version("node", "20", true, &again);
    assert!(back.error.is_none());
    assert_eq!(first.created, back.created);
    let creates = |p: &devignite::symlink_engine::SwitchPlan| -> Vec<(String, String)> {
        p.actions
            .iter()
            .filter_map(|a| match a {
                SandboxAction::CreateLink { source, link } => Some((source.clone(), link.clone())),
                _ => None,
            })
            .collect()
    };
    assert_eq!(creates(&first), creates(&back));
    assert_eq!(back.actions.len(), 4);
}

#[test]
fn every_engine_keeps_bin_and_runtimes_under_its_root() {
    let e = SymlinkEngine::new("/srv/x/", false).clone_layout();
    assert_eq!(e.bin_dir(), "/srv/x/.devignite/bin");
    assert_eq!(e.runtimes_dir(), "/srv/x/.devignite/runtimes");
    assert_eq!(e.temp_dir(), "/srv/x/.devignite/temp");
    assert!(e.bin_dir() != e.runtimes_dir());
}
