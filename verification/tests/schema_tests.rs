use devignite::commands::{find_runtime_by_id, installed_runtime_record, CommandError};
use devignite::schema::{migration_sql, pending_migrations, MIGRATION_COUNT};

#[test]
fn every_migration_is_pending_on_a_fresh_database() {
    let p = pending_migrations(0);
    let versions: Vec<i32> = p.iter().map(|m| m.0).collect();
    assert_eq!(versions, (1..=MIGRATION_COUNT).collect::<Vec<_>>());
    assert!(p[0].1.contains("CREATE TABLE IF NOT EXISTS installed_runtimes"));
    assert!(p[7].1.contains("install_history"));
}

#[test]
fn only_newer_migrations_are_pending() {
    let versions: Vec<i32> = pending_migrations(5).iter().map(|m| m.0).collect();
    assert_eq!(versions, vec![6, 7, 8]);
    assert!(pending_migrations(8).is_empty());
    assert_eq!(pending_migrations(-3).len(), 8);
}

#[test]
fn migration_lookup() {
    assert!(migration_sql(0).is_none());
    assert!(migration_sql(9).is_none());
    assert!(migration_sql(4).unwrap().contains("path_state"));
}

#[test]
fn finding_runtimes_by_id() {
    let a = installed_runtime_record("id-a", "python", "3.11", "/r/a", "/b/python", "t", "python3");
    let b = installed_runtime_record("id-b", "python", "3.12", "/r/b", "/b/python", "t", "python3");
    assert!(a.is_active && a.checksum_verified);
    assert_eq!(a.binary_name, "python3");
    let rs = vec![a, b];
    assert!(matches!(find_runtime_by_id(&rs, "id-b"), Ok(1)));
    match find_runtime_by_id(&rs, "id-z") {
        Err(CommandError::RuntimeNotFound(id)) => assert_eq!(id, "id-z"),
        _ => panic!("expected not found"),
    }
}

#[test]
fn nothing_is_pending_after_every_migration_was_applied() {
    for current in [-1, 0, 3, 8, 12] {
        let applied: Vec<i32> = pending_migrations(current).iter().map(|m| m.0).collect();
        let after = applied.last().copied().unwrap_or(current).max(current);
        assert!(pending_migrations(after).is_empty());
    }
}
