//! The database schema: its migrations, and which of them a database at a
//! given version still needs.
use vstd::prelude::*;

verus! {

/// Migration 1: installed runtimes and their indexes.
pub const MIGRATION_CORE_TABLES: &'static str = "CREATE TABLE IF NOT EXISTS installed_runtimes (
        id TEXT PRIMARY KEY NOT NULL,
        language TEXT NOT NULL,
        version TEXT NOT NULL,
        install_path TEXT NOT NULL,
        symlink_path TEXT NOT NULL,
        installed_at TEXT NOT NULL,
        is_active BOOLEAN NOT NULL DEFAULT 0,
        checksum_verified BOOLEAN NOT NULL DEFAULT 0,
        binary_name TEXT NOT NULL
    );
    CREATE INDEX IF NOT EXISTS idx_runtimes_language ON installed_runtimes(language);
    CREATE INDEX IF NOT EXISTS idx_runtimes_active ON installed_runtimes(language, is_active);";

/// Migration 2: the download cache.
pub const MIGRATION_DOWNLOAD_CACHE: &'static str = "CREATE TABLE IF NOT EXISTS download_cache (
        id TEXT PRIMARY KEY NOT NULL,
        url TEXT NOT NULL UNIQUE,
        local_path TEXT NOT NULL,
        sha256 TEXT NOT NULL,
        downloaded_at TEXT NOT NULL,
        size_bytes INTEGER NOT NULL
    );
    CREATE INDEX IF NOT EXISTS idx_cache_url ON download_cache(url);";

/// Migration 3: diagnostic findings.
pub const MIGRATION_DIAGNOSTICS: &'static str = "CREATE TABLE IF NOT EXISTS diagnostics (
        id TEXT PRIMARY KEY NOT NULL,
        check_name TEXT NOT NULL,
        status TEXT NOT NULL CHECK(status IN ('ok', 'warning', 'error', 'fixed')),
        message TEXT NOT NULL,
        detected_at TEXT NOT NULL
    );
    CREATE INDEX IF NOT EXISTS idx_diagnostics_check ON diagnostics(check_name);";

/// Migration 4: the path state.
pub const MIGRATION_PATH_STATE: &'static str = "CREATE TABLE IF NOT EXISTS path_state (
        id TEXT PRIMARY KEY NOT NULL,
        sandbox_bin_path TEXT NOT NULL,
        path_injected BOOLEAN NOT NULL DEFAULT 0,
        last_verified_at TEXT NOT NULL
    );";

/// Migration 5: smoke-test results.
pub const MIGRATION_SMOKE_TEST_RESULTS: &'static str = "CREATE TABLE IF NOT EXISTS smoke_test_results (
        id TEXT PRIMARY KEY NOT NULL,
        runtime_id TEXT NOT NULL,
        test_command TEXT NOT NULL,
        exit_code INTEGER NOT NULL,
        stdout TEXT,
        stderr TEXT,
        passed BOOLEAN NOT NULL,
        tested_at TEXT NOT NULL,
        FOREIGN KEY (runtime_id) REFERENCES installed_runtimes(id) ON DELETE CASCADE
    );
    CREATE INDEX IF NOT EXISTS idx_smoke_runtime ON smoke_test_results(runtime_id);";

/// Migration 6: doctor runs.
pub const MIGRATION_DOCTOR_HISTORY: &'static str = "CREATE TABLE IF NOT EXISTS doctor_history (
        id TEXT PRIMARY KEY NOT NULL,
        run_at TEXT NOT NULL,
        issues_found INTEGER NOT NULL DEFAULT 0,
        issues_fixed INTEGER NOT NULL DEFAULT 0,
        full_report TEXT NOT NULL
    );";

/// Migration 7: the runtime catalog cache.
pub const MIGRATION_RUNTIME_CATALOG: &'static str = "CREATE TABLE IF NOT EXISTS runtime_catalog (
        id TEXT PRIMARY KEY NOT NULL,
        language TEXT NOT NULL,
        version TEXT NOT NULL,
        display_name TEXT NOT NULL,
        download_url TEXT NOT NULL,
        checksum_url TEXT NOT NULL,
        sha256 TEXT NOT NULL,
        binary_name TEXT NOT NULL,
        platform TEXT NOT NULL,
        arch TEXT NOT NULL,
        file_size_bytes INTEGER NOT NULL DEFAULT 0,
        release_date TEXT NOT NULL,
        fetched_at TEXT NOT NULL
    );
    CREATE INDEX IF NOT EXISTS idx_catalog_language ON runtime_catalog(language);
    CREATE UNIQUE INDEX IF NOT EXISTS idx_catalog_lang_ver ON runtime_catalog(language, version);";

/// Migration 8: the install history log.
pub const MIGRATION_INSTALL_HISTORY: &'static str = "CREATE TABLE IF NOT EXISTS install_history (
        id TEXT PRIMARY KEY NOT NULL,
        language TEXT NOT NULL,
        version TEXT NOT NULL,
        action TEXT NOT NULL CHECK(action IN ('install', 'uninstall', 'switch')),
        status TEXT NOT NULL CHECK(status IN ('success', 'failed')),
        details TEXT,
        performed_at TEXT NOT NULL
    );
    CREATE INDEX IF NOT EXISTS idx_history_lang ON install_history(language);";

/// The number of migrations.
pub const MIGRATION_COUNT: i32 = 8;

/// The SQL of a migration, by version.
pub open spec fn migration_text(version: i32) -> Option<&'static str> {
    match version {
        1 => Some(MIGRATION_CORE_TABLES),
        2 => Some(MIGRATION_DOWNLOAD_CACHE),
        3 => Some(MIGRATION_DIAGNOSTICS),
        4 => Some(MIGRATION_PATH_STATE),
        5 => Some(MIGRATION_SMOKE_TEST_RESULTS),
        6 => Some(MIGRATION_DOCTOR_HISTORY),
        7 => Some(MIGRATION_RUNTIME_CATALOG),
        8 => Some(MIGRATION_INSTALL_HISTORY),
        _ => None,
    }
}

/// The versions from 1 to `n` that are above `current_version`, ascending.
pub open spec fn pending_after(current_version: i32, n: int) -> Seq<i32>
    decreases n,
{
    if n <= 0 {
        Seq::<i32>::empty()
    } else if n > current_version {
        pending_after(current_version, n - 1).push(n as i32)
    } else {
        pending_after(current_version, n - 1)
    }
}

/// The version a database is at after the pending migrations were applied
/// to it: the last one, unless it was already there or beyond.
pub open spec fn version_after_migrating(current_version: i32) -> i32 {
    if current_version < MIGRATION_COUNT {
        MIGRATION_COUNT
    } else {
        current_version
    }
}

proof fn lemma_pending_members(current_version: i32, n: int)
    requires
        n <= 0x7fff_ffff,
    ensures
        forall|v: i32|
            #[trigger] pending_after(current_version, n).contains(v) <==> (current_version < v && 1 <= v
                <= n),
        pending_after(current_version, n).len() == 0 <==> n <= 0 || current_version >= n,
    decreases n,
{
    if n > 0 {
        lemma_pending_members(current_version, n - 1);
        let p = pending_after(current_version, n - 1);
        if n > current_version {
            assert forall|v: i32|
                #[trigger] p.push(n as i32).contains(v) <==> (current_version < v && 1 <= v <= n) by {
                if v == n {
                    assert(p.push(n as i32)[p.len() as int] == v);
                }
                if p.push(n as i32).contains(v) && v != n {
                    let q = p.push(n as i32);
                    let k = choose|k: int| 0 <= k < q.len() && #[trigger] q[k] == v;
                    assert(p[k] == v);
                }
                if p.contains(v) {
                    let k = choose|k: int| 0 <= k < p.len() && #[trigger] p[k] == v;
                    assert(p.push(n as i32)[k] == v);
                }
            }
        }
    }
}

/// The migrations apply once each: the ones pending are exactly the
/// versions above the database's, up to the last, and once they are
/// applied none is pending any more.
pub proof fn law_migrations_apply_once(current_version: i32)
    ensures
        forall|v: i32|
            #[trigger] pending_after(current_version, 8).contains(v) <==> (current_version < v && v
                <= MIGRATION_COUNT && 1 <= v),
        pending_after(version_after_migrating(current_version), 8).len() == 0,
{
    lemma_pending_members(current_version, 8);
    lemma_pending_members(version_after_migrating(current_version), 8);
}

/// The SQL of a migration, by version (1 to `MIGRATION_COUNT`).
pub fn migration_sql(version: i32) -> (r: Option<&'static str>)
    ensures
        r == migration_text(version),
        r is Some <==> 1 <= version <= MIGRATION_COUNT,
{
    match version {
        1 => Some(MIGRATION_CORE_TABLES),
        2 => Some(MIGRATION_DOWNLOAD_CACHE),
        3 => Some(MIGRATION_DIAGNOSTICS),
        4 => Some(MIGRATION_PATH_STATE),
        5 => Some(MIGRATION_SMOKE_TEST_RESULTS),
        6 => Some(MIGRATION_DOCTOR_HISTORY),
        7 => Some(MIGRATION_RUNTIME_CATALOG),
        8 => Some(MIGRATION_INSTALL_HISTORY),
        _ => None,
    }
}

/// The migrations to apply to a database at `current_version`: every
/// version above it, in ascending order, with its SQL.
pub fn pending_migrations(current_version: i32) -> (r: Vec<(i32, &'static str)>)
    ensures
        r@.map_values(|m: (i32, &'static str)| m.0) == pending_after(current_version, 8),
        forall|k: int| 0 <= k < r@.len() ==> migration_text(#[trigger] r@[k].0) == Some(r@[k].1),
{
    let mut r: Vec<(i32, &'static str)> = Vec::new();
    let mut v: i32 = 1;
    while v <= MIGRATION_COUNT
        invariant
            1 <= v <= MIGRATION_COUNT + 1,
            r@.map_values(|m: (i32, &'static str)| m.0) == pending_after(current_version, v - 1),
            forall|k: int| 0 <= k < r@.len() ==> migration_text(#[trigger] r@[k].0) == Some(r@[k].1),
        decreases MIGRATION_COUNT + 1 - v,
    {
        if v > current_version {
            match migration_sql(v) {
                Some(sql) => {
                    let ghost before = r@;
                    r.push((v, sql));
                    assert(r@.map_values(|m: (i32, &'static str)| m.0) =~= before.map_values(
                        |m: (i32, &'static str)| m.0,
                    ).push(v));
                    assert forall|k: int| 0 <= k < r@.len() implies migration_text(#[trigger] r@[k].0)
                        == Some(r@[k].1) by {
                        if k < before.len() {
                            assert(r@[k] == before[k]);
                        }
                    }
                },
                None => {},
            }
        }
        v += 1;
    }
    r
}

} // verus!
