use devignite::path_manager::{get_shell_profiles, path_entries, PathManager, ShellProfile};

fn pm() -> PathManager {
    PathManager::new("/home/u", false)
}

const BIN: &str = "/home/u/.devignite/bin";
const EXPORT: &str = "export PATH=\"/home/u/.devignite/bin:$PATH\"";

#[test]
fn sandbox_bin_path_is_under_home() {
    assert_eq!(pm().sandbox_bin_path(), BIN);
}

#[test]
fn path_membership_ignores_case_and_whitespace() {
    let m = pm();
    assert!(m.is_in_user_path("C:\\x; /HOME/U/.devignite/BIN ;D:\\y"));
    assert!(m.is_in_user_path(BIN));
    assert!(!m.is_in_user_path("/home/u/.devignite/bin/x"));
    assert!(!m.is_in_user_path(""));
    // Unix-style ':' separators are not split.
    assert!(!m.is_in_user_path("/usr/bin:/home/u/.devignite/bin"));
}

#[test]
fn injection_into_profiles() {
    let m = pm();
    assert_eq!(m.profile_injection(None).unwrap(), format!("{}\n", EXPORT));
    assert!(m.profile_injection(Some("# has /home/u/.devignite/bin already")).is_none());
    assert_eq!(
        m.profile_injection(Some("alias ll=ls")).unwrap(),
        format!("alias ll=ls\n\n# DevIgnite sandbox path\n{}\n", EXPORT)
    );
    assert_eq!(
        m.profile_injection(Some("x\n")).unwrap(),
        format!("x\n\n# DevIgnite sandbox path\n{}\n", EXPORT)
    );
    assert_eq!(
        m.profile_injection(Some("")).unwrap(),
        format!("\n\n# DevIgnite sandbox path\n{}\n", EXPORT)
    );
}

#[test]
fn injection_is_idempotent() {
    let m = pm();
    let once = m.profile_injection(Some("alias a=b\n")).unwrap();
    assert!(once.contains(BIN));
    assert!(m.profile_injection(Some(&once)).is_none());
}

#[test]
fn inject_plan_writes_changed_profiles_in_order() {
    let m = pm();
    let profiles = vec![
        ShellProfile { path: "/home/u/.bashrc".into(), contents: Some("x".into()) },
        ShellProfile { path: "/home/u/.zshrc".into(), contents: Some(EXPORT.into()) },
        ShellProfile { path: "/home/u/.profile".into(), contents: None },
    ];
    let plan = m.inject_sandbox_into_path(&profiles);
    assert!(plan.injected);
    assert_eq!(plan.writes.len(), 2);
    assert_eq!(plan.writes[0].path, "/home/u/.bashrc");
    assert_eq!(plan.writes[1].path, "/home/u/.profile");
    assert_eq!(plan.writes[1].contents, format!("{}\n", EXPORT));
    let none = m.inject_sandbox_into_path(&vec![ShellProfile { path: "/p".into(), contents: Some(EXPORT.into()) }]);
    assert!(!none.injected);
    assert!(none.writes.is_empty());
}

#[test]
fn removal_drops_marker_and_export_lines() {
    let m = pm();
    let injected = m.profile_injection(Some("alias a=b\n")).unwrap();
    let cleaned = m.profile_removal(&injected);
    assert_eq!(cleaned, "alias a=b\n");
    assert!(!cleaned.contains(BIN));
    assert_eq!(m.profile_removal("  \n keep \r\n  # DevIgnite sandbox path  \n\n"), "keep\n");
    assert_eq!(m.profile_removal(""), "\n");
}

#[test]
fn remove_plan_skips_missing_profiles() {
    let m = pm();
    let profiles = vec![
        ShellProfile { path: "/a".into(), contents: None },
        ShellProfile { path: "/b".into(), contents: Some(format!("x\n{}\n", EXPORT)) },
    ];
    let writes = m.remove_sandbox_from_path(&profiles);
    assert_eq!(writes.len(), 1);
    assert_eq!(writes[0].path, "/b");
    assert_eq!(writes[0].contents, "x\n");
}

#[test]
fn windows_path_value() {
    let m = pm();
    assert_eq!(m.inject_into_path_value("").unwrap(), BIN);
    assert_eq!(m.inject_into_path_value("C:\\a").unwrap(), format!("C:\\a;{}", BIN));
    assert!(m.inject_into_path_value("C:\\a; /HOME/u/.devignite/bin").is_none());
    let added = m.inject_into_path_value("C:\\a;C:\\b").unwrap();
    assert!(m.is_in_user_path(&added));
    let removed = m.remove_from_path_value(&added);
    assert_eq!(removed, "C:\\a;C:\\b");
    assert!(!m.is_in_user_path(&removed));
    assert_eq!(m.remove_from_path_value(" C:\\a ; /home/u/.devignite/BIN ;C:\\b "), "C:\\a;C:\\b");
    assert_eq!(m.remove_from_path_value(BIN), "");
}

#[test]
fn shell_profiles_by_shell() {
    assert_eq!(get_shell_profiles("/h", Some("/bin/zsh")), vec!["/h/.zshrc"]);
    assert_eq!(get_shell_profiles("/h", Some("/usr/bin/fish")), vec!["/h/.config/fish/config.fish"]);
    assert_eq!(get_shell_profiles("/h", Some("/bin/bash")), vec!["/h/.bashrc"]);
    assert_eq!(get_shell_profiles("/h", None), vec!["/h/.bashrc", "/h/.zshrc"]);
}

#[test]
fn broadcast_status() {
    let m = pm();
    let s = m.verify_path_broadcast(BIN, true, &vec![true, false, true]);
    assert!(s.in_user_path);
    assert!(s.bin_dir_exists);
    assert_eq!(s.symlink_count, 2);
    assert_eq!(s.sandbox_path, BIN);
    let s = m.verify_path_broadcast("", false, &vec![true]);
    assert!(!s.in_user_path);
    assert_eq!(s.symlink_count, 0);
}

#[test]
fn path_entries_are_trimmed_pieces() {
    assert_eq!(path_entries(" a ; b;;c"), vec!["a", "b", "", "c"]);
    assert_eq!(path_entries(""), vec![""]);
}

#[test]
fn removal_after_injection_restores_the_profile() {
    let m = pm();
    for original in ["alias a=b\n", "export X=1\n\nalias y=z\n", "\n"] {
        let injected = m.profile_injection(Some(original)).unwrap();
        assert!(injected.starts_with(original));
        assert_eq!(m.profile_removal(&injected), original);
    }
}

#[test]
fn injecting_twice_writes_nothing_the_second_time() {
    let m = pm();
    let first = vec![
        ShellProfile { path: "/a".into(), contents: Some("alias a=b\n".into()) },
        ShellProfile { path: "/b".into(), contents: None },
    ];
    let plan = m.inject_sandbox_into_path(&first);
    assert!(plan.injected);
    let second: Vec<ShellProfile> = first
        .iter()
        .map(|p| match plan.writes.iter().find(|w| w.path == p.path) {
            Some(w) => ShellProfile { path: p.path.clone(), contents: Some(w.contents.clone()) },
            None => ShellProfile { path: p.path.clone(), contents: p.contents.clone() },
        })
        .collect();
    let again = m.inject_sandbox_into_path(&second);
    assert!(!again.injected);
    assert!(again.writes.is_empty());
}
