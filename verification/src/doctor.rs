//! The environment doctor: turns what was observed of the sandbox and the
//! PATH into a list of diagnostic issues and a summary of them.
use vstd::prelude::*;
use crate::path_manager::{path_list_contains, path_list_contains_exec};
use crate::symlink_engine::{SymlinkEngine, SymlinkHealth};
use crate::text::{concat, ends_with, owned, push_char, trim_end_matches, trim_end_matches_str};

verus! {

/// How serious an issue is.
#[derive(Clone, Copy, PartialEq, Eq, Structural)]
pub enum IssueSeverity {
    Healthy,
    Warning,
    Error,
    Fixed,
}

/// One finding of the doctor.
pub struct DiagnosticIssue {
    pub category: String,
    pub severity: IssueSeverity,
    pub description: String,
    pub affected_path: Option<String>,
    pub fixable: bool,
    pub fix_applied: bool,
}

/// The counts of a report's issues by severity.
pub struct DoctorSummary {
    pub total_checks: usize,
    pub passed: usize,
    pub warnings: usize,
    pub errors: usize,
    pub fixed: usize,
}

/// A full diagnostic run.
pub struct DoctorReport {
    pub timestamp: String,
    pub issues: Vec<DiagnosticIssue>,
    pub summary: DoctorSummary,
}

/// The doctor, working on a sandbox.
pub struct DevIgniteDoctor {
    pub symlink_engine: SymlinkEngine,
}

/// An entry of a directory on the PATH or of the sandbox's `bin` directory.
pub struct NamedEntry {
    /// Its file name, when that is valid Unicode.
    pub name: Option<String>,
    pub path: String,
}

/// What was observed of one directory named on the PATH.
pub struct PathDirListing {
    pub exists: bool,
    /// Whether it is the sandbox's `bin` directory (by path equality).
    pub is_sandbox: bool,
    /// Its entries, or `None` when it could not be read.
    pub entries: Option<Vec<NamedEntry>>,
}

/// Everything the doctor looks at.
pub struct DiagnosticObservations {
    pub timestamp: String,
    /// Whether the sandbox's `bin` and `runtimes` directories existed
    /// before the doctor created missing ones.
    pub bin_dir_existed: bool,
    pub runtimes_dir_existed: bool,
    /// The health of the `bin` directory's links, or the failure to read it.
    pub symlink_health: Result<Vec<SymlinkHealth>, String>,
    /// The PATH value.
    pub path_var: String,
    /// One listing per `;`-separated PATH entry, in order.
    pub path_dirs: Vec<PathDirListing>,
    /// The entries of the sandbox's `bin` directory, or `None` when it could
    /// not be read.
    pub sandbox_entries: Option<Vec<NamedEntry>>,
    /// Whether the temporary directory exists, how many files it holds, and
    /// their total size in megabytes as text.
    pub temp_dir_exists: bool,
    pub temp_file_count: u64,
    pub temp_size_mb_text: String,
    /// Whether the runtimes directory exists, the total size of its entries
    /// in bytes, and that size in megabytes as text.
    pub runtimes_dir_exists: bool,
    pub runtimes_total_bytes: u64,
    pub runtimes_size_mb_text: String,
}

/// An issue as plain values.
pub struct IssueView {
    pub category: Seq<char>,
    pub severity: IssueSeverity,
    pub description: Seq<char>,
    pub affected_path: Option<Seq<char>>,
    pub fixable: bool,
    pub fix_applied: bool,
}

impl View for DiagnosticIssue {
    type V = IssueView;

    open spec fn view(&self) -> IssueView {
        IssueView {
            category: self.category@,
            severity: self.severity,
            description: self.description@,
            affected_path: match self.affected_path {
                Some(p) => Some(p@),
                None => None,
            },
            fixable: self.fixable,
            fix_applied: self.fix_applied,
        }
    }
}

pub open spec fn issues_view(v: Seq<DiagnosticIssue>) -> Seq<IssueView> {
    v.map_values(|i: DiagnosticIssue| i@)
}

pub open spec fn mk(
    category: Seq<char>,
    severity: IssueSeverity,
    description: Seq<char>,
    affected_path: Option<Seq<char>>,
    fixable: bool,
    fix_applied: bool,
) -> IssueView {
    IssueView { category, severity, description, affected_path, fixable, fix_applied }
}

// ---------------------------------------------------------------------------
// Models of the checks
// ---------------------------------------------------------------------------

/// A missing directory that the doctor created, or an existing one.
pub open spec fn dir_issue(
    existed: bool,
    path: Seq<char>,
    missing: Seq<char>,
    present: Seq<char>,
) -> IssueView {
    if existed {
        mk("sandbox_integrity"@, IssueSeverity::Healthy, present, Some(path), false, false)
    } else {
        mk("sandbox_integrity"@, IssueSeverity::Fixed, missing, Some(path), true, true)
    }
}

pub open spec fn integrity_issues(bin_existed: bool, bin: Seq<char>, rt_existed: bool, rt: Seq<char>) -> Seq<
    IssueView,
> {
    seq![
        dir_issue(
            bin_existed,
            bin,
            "Sandbox bin directory does not exist"@,
            "Sandbox bin directory exists and is accessible"@,
        ),
        dir_issue(rt_existed, rt, "Runtimes directory does not exist"@, "Runtimes directory exists"@),
    ]
}

pub open spec fn health_issue(h: SymlinkHealth) -> IssueView {
    if h.is_valid {
        mk(
            "symlink_health"@,
            IssueSeverity::Healthy,
            "Symlink OK: "@ + h.symlink_path@ + " -> "@ + h.target_path@,
            Some(h.symlink_path@),
            false,
            false,
        )
    } else {
        mk(
            "symlink_health"@,
            IssueSeverity::Warning,
            "Broken symlink: "@ + h.symlink_path@ + " -> "@ + h.target_path@ + " (target missing)"@,
            Some(h.symlink_path@),
            true,
            false,
        )
    }
}

pub open spec fn symlink_issues(health: Result<Vec<SymlinkHealth>, String>) -> Seq<IssueView> {
    match health {
        Ok(hs) => hs@.map_values(|h: SymlinkHealth| health_issue(h)),
        Err(e) => seq![
            mk(
                "symlink_health"@,
                IssueSeverity::Error,
                "Failed to verify symlinks: "@ + e@,
                None,
                false,
                false,
            ),
        ],
    }
}

/// The binary name of a file name: the name without `.exe` suffixes.
pub open spec fn binary_stem(name: Seq<char>) -> Seq<char> {
    trim_end_matches(name, ".exe"@)
}

/// The (stem, path) pairs that one PATH directory contributes.
pub open spec fn dir_binaries(l: PathDirListing) -> Seq<(Seq<char>, Seq<char>)> {
    if !l.exists || l.is_sandbox {
        Seq::empty()
    } else {
        match l.entries {
            Some(es) => named_pairs(es@),
            None => Seq::empty(),
        }
    }
}

pub open spec fn named_pairs(es: Seq<NamedEntry>) -> Seq<(Seq<char>, Seq<char>)>
    decreases es.len(),
{
    if es.len() == 0 {
        Seq::empty()
    } else {
        let rest = named_pairs(es.drop_last());
        match es.last().name {
            Some(n) => rest.push((binary_stem(n@), es.last().path@)),
            None => rest,
        }
    }
}

/// All (stem, path) pairs of the PATH directories, in order.
pub open spec fn system_binaries(ls: Seq<PathDirListing>) -> Seq<(Seq<char>, Seq<char>)>
    decreases ls.len(),
{
    if ls.len() == 0 {
        Seq::empty()
    } else {
        system_binaries(ls.drop_last()) + dir_binaries(ls.last())
    }
}

/// The path recorded last for a stem (a later directory overrides an
/// earlier one).
pub open spec fn lookup_last(pairs: Seq<(Seq<char>, Seq<char>)>, stem: Seq<char>) -> Option<Seq<char>>
    decreases pairs.len(),
{
    if pairs.len() == 0 {
        None
    } else if pairs.last().0 == stem {
        Some(pairs.last().1)
    } else {
        lookup_last(pairs.drop_last(), stem)
    }
}

pub open spec fn shadow_issue(stem: Seq<char>, path: Seq<char>) -> IssueView {
    mk(
        "shadowed_binary"@,
        IssueSeverity::Warning,
        "System binary '"@ + stem + "' at "@ + path + " may shadow DevIgnite's managed version"@,
        Some(path),
        false,
        false,
    )
}

/// The warnings for sandbox entries that a PATH directory also provides.
pub open spec fn shadow_warnings(sys: Seq<(Seq<char>, Seq<char>)>, es: Seq<NamedEntry>) -> Seq<
    IssueView,
>
    decreases es.len(),
{
    if es.len() == 0 {
        Seq::empty()
    } else {
        let rest = shadow_warnings(sys, es.drop_last());
        match es.last().name {
            Some(n) => match lookup_last(sys, binary_stem(n@)) {
                Some(p) => rest.push(shadow_issue(binary_stem(n@), p)),
                None => rest,
            },
            None => rest,
        }
    }
}

pub open spec fn shadow_issues(ls: Seq<PathDirListing>, sandbox: Option<Vec<NamedEntry>>) -> Seq<
    IssueView,
> {
    let found = match sandbox {
        Some(es) => shadow_warnings(system_binaries(ls), es@),
        None => Seq::empty(),
    };
    if found.len() == 0 {
        seq![
            mk(
                "shadowed_binary"@,
                IssueSeverity::Healthy,
                "No shadowed binaries detected"@,
                None,
                false,
                false,
            ),
        ]
    } else {
        found
    }
}

/// The decimal digits of a number.
pub open spec fn decimal(n: nat) -> Seq<char>
    decreases n,
{
    if n < 10 {
        seq![digit_char(n)]
    } else {
        decimal(n / 10) + seq![digit_char(n % 10)]
    }
}

pub open spec fn digit_char(d: nat) -> char {
    if d == 0 { '0' }
    else if d == 1 { '1' }
    else if d == 2 { '2' }
    else if d == 3 { '3' }
    else if d == 4 { '4' }
    else if d == 5 { '5' }
    else if d == 6 { '6' }
    else if d == 7 { '7' }
    else if d == 8 { '8' }
    else { '9' }
}

pub open spec fn temp_issues(exists: bool, count: u64, mb: Seq<char>, temp: Seq<char>) -> Seq<IssueView> {
    if !exists {
        seq![
            mk("orphaned_temp"@, IssueSeverity::Healthy, "No temp directory exists"@, None, false, false),
        ]
    } else if count > 0 {
        seq![
            mk(
                "orphaned_temp"@,
                IssueSeverity::Fixed,
                "Found "@ + decimal(count as nat) + " orphaned temp files ("@ + mb + " MB) in "@
                    + temp,
                Some(temp),
                true,
                true,
            ),
        ]
    } else {
        seq![
            mk("orphaned_temp"@, IssueSeverity::Healthy, "No orphaned temp files found"@, None, false, false),
        ]
    }
}

pub open spec fn path_state_issues(path_var: Seq<char>, sandbox: Seq<char>) -> Seq<IssueView> {
    if path_list_contains(path_var, sandbox) {
        seq![
            mk(
                "path_state"@,
                IssueSeverity::Healthy,
                "Sandbox bin directory is in system PATH"@,
                Some(sandbox),
                false,
                false,
            ),
        ]
    } else {
        seq![
            mk(
                "path_state"@,
                IssueSeverity::Error,
                "Sandbox bin directory is NOT in system PATH"@,
                Some(sandbox),
                true,
                false,
            ),
        ]
    }
}

/// More than 10 000 MiB of runtimes is worth a warning.
pub open spec fn disk_usage_limit() -> u64 {
    10_485_760_000u64
}

pub open spec fn disk_issues(exists: bool, total: u64, mb: Seq<char>, dir: Seq<char>) -> Seq<IssueView> {
    if exists {
        seq![
            mk(
                "disk_usage"@,
                if total > disk_usage_limit() {
                    IssueSeverity::Warning
                } else {
                    IssueSeverity::Healthy
                },
                "Total runtime disk usage: "@ + mb + " MB"@,
                Some(dir),
                false,
                false,
            ),
        ]
    } else {
        Seq::empty()
    }
}

/// The number of issues of a severity.
pub open spec fn count_severity(is: Seq<IssueView>, s: IssueSeverity) -> nat
    decreases is.len(),
{
    if is.len() == 0 {
        0
    } else {
        count_severity(is.drop_last(), s) + if is.last().severity == s {
            1nat
        } else {
            0nat
        }
    }
}

/// The summary counts the issues of each severity.
pub open spec fn summary_of(sm: DoctorSummary, is: Seq<IssueView>) -> bool {
    &&& sm.total_checks == is.len()
    &&& sm.passed == count_severity(is, IssueSeverity::Healthy)
    &&& sm.warnings == count_severity(is, IssueSeverity::Warning)
    &&& sm.errors == count_severity(is, IssueSeverity::Error)
    &&& sm.fixed == count_severity(is, IssueSeverity::Fixed)
}

impl DevIgniteDoctor {
    /// The issues of a full run, in the order of the checks.
    pub open spec fn all_issues(&self, obs: DiagnosticObservations) -> Seq<IssueView> {
        let e = self.symlink_engine;
        integrity_issues(obs.bin_dir_existed, e@.bin_dir, obs.runtimes_dir_existed, e@.runtimes_dir)
            + symlink_issues(obs.symlink_health) + shadow_issues(obs.path_dirs@, obs.sandbox_entries)
            + temp_issues(
            obs.temp_dir_exists,
            obs.temp_file_count,
            obs.temp_size_mb_text@,
            crate::paths::join_path(e@.sandbox_root, "temp"@, e@.windows),
        ) + path_state_issues(obs.path_var@, e@.bin_dir) + disk_issues(
            obs.runtimes_dir_exists,
            obs.runtimes_total_bytes,
            obs.runtimes_size_mb_text@,
            e@.runtimes_dir,
        )
    }
}

// ---------------------------------------------------------------------------
// Laws
// ---------------------------------------------------------------------------

/// Trailing `.exe` suffixes do not count in a binary's name: a name with
/// `.exe` appended has the same stem as the name, a name that does not end
/// in `.exe` is its own stem, and a stem never ends in `.exe`.
pub proof fn law_exe_suffix_is_ignored(n: Seq<char>)
    ensures
        binary_stem(n + ".exe"@) == binary_stem(n),
        !ends_with(n, ".exe"@) ==> binary_stem(n) == n,
        !ends_with(binary_stem(n), ".exe"@),
        binary_stem(n) == n.take(binary_stem(n).len() as int),
{
    reveal_strlit(".exe");
    let m = n + ".exe"@;
    assert(m.subrange(m.len() - 4, m.len() as int) == ".exe"@);
    assert(m.subrange(0, m.len() - 4) == n);
    lemma_stem_shape(n);
}

proof fn lemma_stem_shape(n: Seq<char>)
    ensures
        !ends_with(binary_stem(n), ".exe"@),
        binary_stem(n).len() <= n.len(),
        binary_stem(n) == n.take(binary_stem(n).len() as int),
    decreases n.len(),
{
    reveal_strlit(".exe");
    if ends_with(n, ".exe"@) {
        let t = n.subrange(0, n.len() - 4);
        lemma_stem_shape(t);
        assert(binary_stem(n) == binary_stem(t));
        assert(n.take(binary_stem(t).len() as int) =~= t.take(binary_stem(t).len() as int));
    } else {
        assert(n.take(n.len() as int) == n);
    }
}

proof fn lemma_named_pairs_has(es: Seq<NamedEntry>, j: int)
    requires
        0 <= j < es.len(),
        es[j].name is Some,
    ensures
        exists|i: int|
            0 <= i < named_pairs(es).len() && #[trigger] named_pairs(es)[i] == (
                binary_stem(es[j].name->0@),
                es[j].path@,
            ),
    decreases es.len(),
{
    let last = es.len() - 1;
    if j == last {
        let r = named_pairs(es.drop_last());
        assert(named_pairs(es)[r.len() as int] == (binary_stem(es[j].name->0@), es[j].path@));
    } else {
        lemma_named_pairs_has(es.drop_last(), j);
        let r = named_pairs(es.drop_last());
        let i = choose|i: int| 0 <= i < r.len() && #[trigger] r[i] == (
            binary_stem(es[j].name->0@),
            es[j].path@,
        );
        assert(named_pairs(es)[i] == r[i]);
    }
}

proof fn lemma_system_binaries_has(ls: Seq<PathDirListing>, d: int, pair: (Seq<char>, Seq<char>))
    requires
        0 <= d < ls.len(),
        exists|i: int| 0 <= i < dir_binaries(ls[d]).len() && #[trigger] dir_binaries(ls[d])[i] == pair,
    ensures
        exists|i: int| 0 <= i < system_binaries(ls).len() && #[trigger] system_binaries(ls)[i] == pair,
    decreases ls.len(),
{
    let pre = system_binaries(ls.drop_last());
    if d == ls.len() - 1 {
        let i = choose|i: int| 0 <= i < dir_binaries(ls[d]).len() && #[trigger] dir_binaries(ls[d])[i] == pair;
        assert(system_binaries(ls)[pre.len() + i] == dir_binaries(ls[d])[i]);
    } else {
        assert(ls.drop_last()[d] == ls[d]);
        lemma_system_binaries_has(ls.drop_last(), d, pair);
        let i = choose|i: int| 0 <= i < pre.len() && #[trigger] pre[i] == pair;
        assert(system_binaries(ls)[i] == pre[i]);
    }
}

proof fn lemma_lookup_finds(pairs: Seq<(Seq<char>, Seq<char>)>, i: int)
    requires
        0 <= i < pairs.len(),
    ensures
        lookup_last(pairs, pairs[i].0) is Some,
    decreases pairs.len(),
{
    if i < pairs.len() - 1 && pairs.last().0 != pairs[i].0 {
        assert(pairs.drop_last()[i] == pairs[i]);
        lemma_lookup_finds(pairs.drop_last(), i);
    }
}

proof fn lemma_shadow_warnings_has(sys: Seq<(Seq<char>, Seq<char>)>, es: Seq<NamedEntry>, k: int)
    requires
        0 <= k < es.len(),
        es[k].name is Some,
        lookup_last(sys, binary_stem(es[k].name->0@)) is Some,
    ensures
        exists|i: int|
            0 <= i < shadow_warnings(sys, es).len() && #[trigger] shadow_warnings(sys, es)[i]
                == shadow_issue(
                binary_stem(es[k].name->0@),
                lookup_last(sys, binary_stem(es[k].name->0@))->0,
            ),
    decreases es.len(),
{
    let pre = shadow_warnings(sys, es.drop_last());
    if k == es.len() - 1 {
        assert(shadow_warnings(sys, es)[pre.len() as int] == shadow_issue(
            binary_stem(es[k].name->0@),
            lookup_last(sys, binary_stem(es[k].name->0@))->0,
        ));
    } else {
        assert(es.drop_last()[k] == es[k]);
        lemma_shadow_warnings_has(sys, es.drop_last(), k);
        let i = choose|i: int|
            0 <= i < pre.len() && #[trigger] pre[i] == shadow_issue(
                binary_stem(es[k].name->0@),
                lookup_last(sys, binary_stem(es[k].name->0@))->0,
            );
        assert(shadow_warnings(sys, es)[i] == pre[i]);
    }
}

/// A binary of the sandbox that a readable PATH directory (other than the
/// sandbox's own) also provides, each as `<name>` or `<name>.exe`, is
/// reported: some issue of the shadow check is a warning that the system's
/// binary of that name may shadow the sandbox's.
pub proof fn law_system_binary_shadows_sandbox_binary(
    ls: Seq<PathDirListing>,
    sandbox: Option<Vec<NamedEntry>>,
    d: int,
    j: int,
    k: int,
    n: Seq<char>,
)
    requires
        0 <= d < ls.len(),
        ls[d].exists,
        !ls[d].is_sandbox,
        ls[d].entries matches Some(es) && 0 <= j < es@.len() && (es@[j].name matches Some(y) && (
        y@ == n + ".exe"@ || y@ == n)),
        sandbox matches Some(ss) && 0 <= k < ss@.len() && (ss@[k].name matches Some(x) && (x@
            == n || x@ == n + ".exe"@)),
        !ends_with(n, ".exe"@),
    ensures
        exists|i: int|
            0 <= i < shadow_issues(ls, sandbox).len() && {
                let issue = #[trigger] shadow_issues(ls, sandbox)[i];
                &&& issue.category == "shadowed_binary"@
                &&& issue.severity == IssueSeverity::Warning
                &&& issue.affected_path matches Some(p) && issue.description == "System binary '"@
                    + n + "' at "@ + p + " may shadow DevIgnite's managed version"@
                &&& !issue.fixable
                &&& !issue.fix_applied
            },
{
    law_exe_suffix_is_ignored(n);
    let es = ls[d].entries->0@;
    let ss = sandbox->0@;
    lemma_named_pairs_has(es, j);
    let pair = (binary_stem(es[j].name->0@), es[j].path@);
    assert(pair.0 == n);
    assert(dir_binaries(ls[d]) == named_pairs(es));
    lemma_system_binaries_has(ls, d, pair);
    let sys = system_binaries(ls);
    let i = choose|i: int| 0 <= i < sys.len() && #[trigger] sys[i] == pair;
    lemma_lookup_finds(sys, i);
    assert(binary_stem(ss[k].name->0@) == n);
    lemma_shadow_warnings_has(sys, ss, k);
    let p = lookup_last(sys, n)->0;
    let w = shadow_warnings(sys, ss);
    let m = choose|m: int| 0 <= m < w.len() && #[trigger] w[m] == shadow_issue(n, p);
    assert(shadow_issues(ls, sandbox) == w);
    assert(shadow_issues(ls, sandbox)[m] == shadow_issue(n, p));
}

/// A readable PATH directory other than the sandbox's holds an entry whose
/// stem is `n`, at path `p`.
pub open spec fn path_provides(ls: Seq<PathDirListing>, n: Seq<char>, p: Seq<char>) -> bool {
    exists|d: int, j: int|
        #![trigger ls[d].entries->0@[j]]
        0 <= d < ls.len() && ls[d].exists && !ls[d].is_sandbox && ls[d].entries is Some && 0 <= j
            < ls[d].entries->0@.len() && ls[d].entries->0@[j].name is Some && binary_stem(
            ls[d].entries->0@[j].name->0@,
        ) == n && ls[d].entries->0@[j].path@ == p
}

/// `p` is the path of the last entry, in PATH order, whose stem is `n`: a
/// later PATH directory overrides an earlier one.
pub open spec fn last_provider(pairs: Seq<(Seq<char>, Seq<char>)>, n: Seq<char>, p: Seq<char>) -> bool {
    exists|i: int|
        0 <= i < pairs.len() && #[trigger] pairs[i] == (n, p) && forall|j: int|
            i < j < pairs.len() ==> (#[trigger] pairs[j]).0 != n
}

/// The sandbox's `bin` directory holds an entry whose stem is `n`.
pub open spec fn sandbox_has(ss: Seq<NamedEntry>, n: Seq<char>) -> bool {
    exists|k: int| 0 <= k < ss.len() && (#[trigger] ss[k]).name is Some && binary_stem(ss[k].name->0@) == n
}

proof fn lemma_lookup_some(pairs: Seq<(Seq<char>, Seq<char>)>, st: Seq<char>)
    ensures
        lookup_last(pairs, st) matches Some(p) ==> exists|i: int|
            0 <= i < pairs.len() && #[trigger] pairs[i] == (st, p) && forall|j: int|
                i < j < pairs.len() ==> (#[trigger] pairs[j]).0 != st,
        (forall|i: int| 0 <= i < pairs.len() ==> (#[trigger] pairs[i]).0 != st) ==> lookup_last(
            pairs,
            st,
        ) is None,
    decreases pairs.len(),
{
    if pairs.len() > 0 {
        lemma_lookup_some(pairs.drop_last(), st);
        if pairs.last().0 != st {
            if let Some(p) = lookup_last(pairs, st) {
                let q = pairs.drop_last();
                let i = choose|i: int|
                    0 <= i < q.len() && #[trigger] q[i] == (st, p) && forall|j: int|
                        i < j < q.len() ==> (#[trigger] q[j]).0 != st;
                assert(pairs[i] == q[i]);
                assert forall|j: int| i < j < pairs.len() implies (#[trigger] pairs[j]).0 != st by {
                    if j < q.len() {
                        assert(pairs[j] == q[j]);
                    }
                }
            }
            assert forall|i: int| 0 <= i < pairs.drop_last().len() implies (
            #[trigger] pairs.drop_last()[i]).0 != st || !(forall|i: int|
                0 <= i < pairs.len() ==> (#[trigger] pairs[i]).0 != st) by {
                assert(pairs.drop_last()[i] == pairs[i]);
            }
        } else {
            assert(pairs[pairs.len() - 1] == (st, pairs.last().1));
        }
    }
}

proof fn lemma_named_pairs_from(es: Seq<NamedEntry>, i: int)
    requires
        0 <= i < named_pairs(es).len(),
    ensures
        exists|j: int|
            0 <= j < es.len() && (#[trigger] es[j]).name is Some && binary_stem(es[j].name->0@)
                == named_pairs(es)[i].0 && es[j].path@ == named_pairs(es)[i].1,
    decreases es.len(),
{
    let r = named_pairs(es.drop_last());
    if i < r.len() {
        lemma_named_pairs_from(es.drop_last(), i);
        let j = choose|j: int|
            0 <= j < es.drop_last().len() && (#[trigger] es.drop_last()[j]).name is Some
                && binary_stem(es.drop_last()[j].name->0@) == r[i].0 && es.drop_last()[j].path@
                == r[i].1;
        assert(es[j] == es.drop_last()[j]);
        assert(named_pairs(es)[i] == r[i]);
    } else {
        assert(es[es.len() - 1] == es.last());
    }
}

proof fn lemma_system_binaries_from(ls: Seq<PathDirListing>, i: int)
    requires
        0 <= i < system_binaries(ls).len(),
    ensures
        path_provides(ls, system_binaries(ls)[i].0, system_binaries(ls)[i].1),
    decreases ls.len(),
{
    let pre = system_binaries(ls.drop_last());
    let pair = system_binaries(ls)[i];
    if i < pre.len() {
        lemma_system_binaries_from(ls.drop_last(), i);
        assert(pre[i] == pair);
        let q = ls.drop_last();
        let (d, j) = choose|d: int, j: int|
            #![trigger q[d].entries->0@[j]]
            0 <= d < q.len() && q[d].exists && !q[d].is_sandbox && q[d].entries is Some && 0 <= j
                < q[d].entries->0@.len() && q[d].entries->0@[j].name is Some && binary_stem(
                q[d].entries->0@[j].name->0@,
            ) == pair.0 && q[d].entries->0@[j].path@ == pair.1;
        assert(ls[d] == q[d]);
        assert(ls[d].entries->0@[j] == q[d].entries->0@[j]);
    } else {
        let d = ls.len() - 1;
        let l = ls[d];
        assert(l == ls.last());
        assert(dir_binaries(l)[i - pre.len()] == pair);
        let es = l.entries->0@;
        assert(dir_binaries(l) == named_pairs(es));
        lemma_named_pairs_from(es, i - pre.len());
        let j = choose|j: int|
            0 <= j < es.len() && (#[trigger] es[j]).name is Some && binary_stem(es[j].name->0@)
                == pair.0 && es[j].path@ == pair.1;
        assert(ls[d].exists && !ls[d].is_sandbox);
        assert(ls[d].entries->0@[j] == es[j]);
    }
}

proof fn lemma_shadow_warnings_from(sys: Seq<(Seq<char>, Seq<char>)>, es: Seq<NamedEntry>, i: int)
    requires
        0 <= i < shadow_warnings(sys, es).len(),
    ensures
        exists|k: int|
            0 <= k < es.len() && (#[trigger] es[k]).name is Some && lookup_last(
                sys,
                binary_stem(es[k].name->0@),
            ) is Some && shadow_warnings(sys, es)[i] == shadow_issue(
                binary_stem(es[k].name->0@),
                lookup_last(sys, binary_stem(es[k].name->0@))->0,
            ),
    decreases es.len(),
{
    let pre = shadow_warnings(sys, es.drop_last());
    if i < pre.len() {
        lemma_shadow_warnings_from(sys, es.drop_last(), i);
        let k = choose|k: int|
            0 <= k < es.drop_last().len() && (#[trigger] es.drop_last()[k]).name is Some
                && lookup_last(sys, binary_stem(es.drop_last()[k].name->0@)) is Some
                && pre[i] == shadow_issue(
                binary_stem(es.drop_last()[k].name->0@),
                lookup_last(sys, binary_stem(es.drop_last()[k].name->0@))->0,
            );
        assert(es[k] == es.drop_last()[k]);
        assert(shadow_warnings(sys, es)[i] == pre[i]);
    } else {
        assert(es[es.len() - 1] == es.last());
    }
}

proof fn lemma_shadow_warnings_empty(sys: Seq<(Seq<char>, Seq<char>)>, es: Seq<NamedEntry>)
    requires
        forall|k: int|
            0 <= k < es.len() && (#[trigger] es[k]).name is Some ==> lookup_last(
                sys,
                binary_stem(es[k].name->0@),
            ) is None,
    ensures
        shadow_warnings(sys, es).len() == 0,
    decreases es.len(),
{
    if es.len() > 0 {
        assert(es[es.len() - 1] == es.last());
        assert forall|k: int|
            0 <= k < es.drop_last().len() && (#[trigger] es.drop_last()[k]).name is Some
                implies lookup_last(sys, binary_stem(es.drop_last()[k].name->0@)) is None by {
            assert(es[k] == es.drop_last()[k]);
        }
        lemma_shadow_warnings_empty(sys, es.drop_last());
    }
}

/// The shadow check reports nothing it cannot back up: each warning names
/// the stem of a sandbox binary and a path at which a readable PATH
/// directory provides a binary of that stem; of several such paths, the
/// last in PATH order.  When no sandbox binary is provided by a PATH
/// directory the check gives exactly one healthy issue, and otherwise only
/// warnings.
pub proof fn law_shadow_reports_are_sound(ls: Seq<PathDirListing>, sandbox: Option<Vec<NamedEntry>>)
    ensures
        forall|i: int|
            0 <= i < shadow_issues(ls, sandbox).len() && (#[trigger] shadow_issues(ls, sandbox)[i]).severity
                == IssueSeverity::Warning ==> {
                let issue = shadow_issues(ls, sandbox)[i];
                exists|n: Seq<char>, p: Seq<char>|
                    #![trigger path_provides(ls, n, p)]
                    {
                        &&& issue.affected_path == Some(p)
                        &&& issue.description == "System binary '"@ + n + "' at "@ + p
                            + " may shadow DevIgnite's managed version"@
                        &&& path_provides(ls, n, p)
                        &&& sandbox matches Some(ss) && sandbox_has(ss@, n)
                        &&& last_provider(system_binaries(ls), n, p)
                    }
            },
        (forall|n: Seq<char>, p: Seq<char>|
            #![trigger path_provides(ls, n, p)]
            path_provides(ls, n, p) ==> !(sandbox matches Some(ss) && sandbox_has(ss@, n)))
            ==> shadow_issues(ls, sandbox) == seq![
            IssueView {
                category: "shadowed_binary"@,
                severity: IssueSeverity::Healthy,
                description: "No shadowed binaries detected"@,
                affected_path: None,
                fixable: false,
                fix_applied: false,
            },
        ],
        forall|i: int|
            0 <= i < shadow_issues(ls, sandbox).len() ==> (#[trigger] shadow_issues(ls, sandbox)[i]).severity
                == IssueSeverity::Warning || shadow_issues(ls, sandbox).len() == 1,
{
    let sys = system_binaries(ls);
    reveal_strlit("No shadowed binaries detected");
    match sandbox {
        Some(ss) => {
            let es = ss@;
            let w = shadow_warnings(sys, es);
            assert forall|i: int| 0 <= i < w.len() implies {
                let issue = #[trigger] w[i];
                exists|n: Seq<char>, p: Seq<char>|
                    #![trigger path_provides(ls, n, p)]
                    {
                        &&& issue.affected_path == Some(p)
                        &&& issue.description == "System binary '"@ + n + "' at "@ + p
                            + " may shadow DevIgnite's managed version"@
                        &&& path_provides(ls, n, p)
                        &&& sandbox_has(es, n)
                        &&& last_provider(sys, n, p)
                    }
            } by {
                lemma_shadow_warnings_from(sys, es, i);
                let k = choose|k: int|
                    0 <= k < es.len() && (#[trigger] es[k]).name is Some && lookup_last(
                        sys,
                        binary_stem(es[k].name->0@),
                    ) is Some && w[i] == shadow_issue(
                        binary_stem(es[k].name->0@),
                        lookup_last(sys, binary_stem(es[k].name->0@))->0,
                    );
                let n = binary_stem(es[k].name->0@);
                let p = lookup_last(sys, n)->0;
                lemma_lookup_some(sys, n);
                let j = choose|j: int| 0 <= j < sys.len() && #[trigger] sys[j] == (n, p);
                lemma_system_binaries_from(ls, j);
                assert(sandbox_has(es, n));
                assert(path_provides(ls, n, p));
            }
            if forall|n: Seq<char>, p: Seq<char>|
                #![trigger path_provides(ls, n, p)]
                path_provides(ls, n, p) ==> !(sandbox matches Some(ss) && sandbox_has(ss@, n)) {
                assert forall|k: int|
                    0 <= k < es.len() && (#[trigger] es[k]).name is Some implies lookup_last(
                        sys,
                        binary_stem(es[k].name->0@),
                    ) is None by {
                    let n = binary_stem(es[k].name->0@);
                    assert(sandbox_has(es, n));
                    lemma_lookup_some(sys, n);
                    if let Some(p) = lookup_last(sys, n) {
                        let j = choose|j: int| 0 <= j < sys.len() && #[trigger] sys[j] == (n, p);
                        lemma_system_binaries_from(ls, j);
                        assert(path_provides(ls, n, p));
                    }
                }
                lemma_shadow_warnings_empty(sys, es);
            }
            assert forall|i: int| 0 <= i < w.len() implies (#[trigger] w[i]).severity
                == IssueSeverity::Warning by {
                lemma_shadow_warnings_from(sys, es, i);
            }
        },
        None => {},
    }
}

/// Every issue has exactly one severity, so the four counts add up to the
/// number of issues.
pub proof fn law_summary_counts_partition(is: Seq<IssueView>)
    ensures
        count_severity(is, IssueSeverity::Healthy) + count_severity(is, IssueSeverity::Warning)
            + count_severity(is, IssueSeverity::Error) + count_severity(is, IssueSeverity::Fixed)
            == is.len(),
    decreases is.len(),
{
    if is.len() > 0 {
        law_summary_counts_partition(is.drop_last());
    }
}

/// The doctor reports the PATH as healthy exactly when the path manager
/// finds the sandbox's `bin` directory on it.
pub proof fn law_path_state_agrees_with_path_manager(path_var: Seq<char>, sandbox: Seq<char>)
    ensures
        path_state_issues(path_var, sandbox).len() == 1,
        (path_state_issues(path_var, sandbox)[0].severity == IssueSeverity::Healthy)
            == path_list_contains(path_var, sandbox),
{
}

// ---------------------------------------------------------------------------
// Executable functions
// ---------------------------------------------------------------------------

fn issue(
    category: &str,
    severity: IssueSeverity,
    description: String,
    affected_path: Option<String>,
    fixable: bool,
    fix_applied: bool,
) -> (r: DiagnosticIssue)
    ensures
        r@ == mk(
            category@,
            severity,
            description@,
            match affected_path {
                Some(p) => Some(p@),
                None => None,
            },
            fixable,
            fix_applied,
        ),
{
    DiagnosticIssue {
        category: owned(category),
        severity,
        description,
        affected_path,
        fixable,
        fix_applied,
    }
}

fn push_issue(v: &mut Vec<DiagnosticIssue>, i: DiagnosticIssue)
    ensures
        issues_view(final(v)@) == issues_view(old(v)@).push(i@),
{
    let ghost iv = i@;
    v.push(i);
    assert(issues_view(v@) =~= issues_view(old(v)@).push(iv));
}

fn decimal_string(n: u64) -> (r: String)
    ensures
        r@ == decimal(n as nat),
    decreases n,
{
    let d: u8 = (n % 10) as u8;
    let c = if d == 0 { '0' }
        else if d == 1 { '1' }
        else if d == 2 { '2' }
        else if d == 3 { '3' }
        else if d == 4 { '4' }
        else if d == 5 { '5' }
        else if d == 6 { '6' }
        else if d == 7 { '7' }
        else if d == 8 { '8' }
        else { '9' };
    assert(c == digit_char((n % 10) as nat));
    if n < 10 {
        let mut s = String::new();
        push_char(&mut s, c);
        assert(s@ == seq![c]);
        s
    } else {
        let mut s = decimal_string(n / 10);
        push_char(&mut s, c);
        s
    }
}

impl IssueSeverity {
    /// The severity's name: `ok`, `warning`, `error` or `fixed`.
    pub fn as_str(&self) -> (r: &'static str)
        ensures
            r@ == match self {
                IssueSeverity::Healthy => "ok"@,
                IssueSeverity::Warning => "warning"@,
                IssueSeverity::Error => "error"@,
                IssueSeverity::Fixed => "fixed"@,
            },
    {
        match self {
            IssueSeverity::Healthy => "ok",
            IssueSeverity::Warning => "warning",
            IssueSeverity::Error => "error",
            IssueSeverity::Fixed => "fixed",
        }
    }
}

fn cat3(a: &str, b: &str, c: &str) -> (r: String)
    ensures
        r@ == a@ + b@ + c@,
{
    let x = concat(a, b);
    concat(x.as_str(), c)
}

fn cat4(a: &str, b: &str, c: &str, d: &str) -> (r: String)
    ensures
        r@ == a@ + b@ + c@ + d@,
{
    let x = cat3(a, b, c);
    concat(x.as_str(), d)
}

fn cat5(a: &str, b: &str, c: &str, d: &str, e: &str) -> (r: String)
    ensures
        r@ == a@ + b@ + c@ + d@ + e@,
{
    let x = cat4(a, b, c, d);
    concat(x.as_str(), e)
}

fn cat6(a: &str, b: &str, c: &str, d: &str, e: &str, f: &str) -> (r: String)
    ensures
        r@ == a@ + b@ + c@ + d@ + e@ + f@,
{
    let x = cat5(a, b, c, d, e);
    concat(x.as_str(), f)
}

fn stem_of(name: &str) -> (r: String)
    ensures
        r@ == binary_stem(name@),
{
    proof {
        reveal_strlit(".exe");
    }
    trim_end_matches_str(name, ".exe")
}

fn lookup_last_exec(pairs: &Vec<(String, String)>, stem: &String) -> (r: Option<String>)
    ensures
        match r {
            Some(p) => lookup_last(pairs_view(pairs@), stem@) == Some(p@),
            None => lookup_last(pairs_view(pairs@), stem@) is None,
        },
{
    let mut i: usize = pairs.len();
    let ghost ps = pairs_view(pairs@);
    assert(ps.take(i as int) == ps);
    while i > 0
        invariant
            i <= pairs.len(),
            ps == pairs_view(pairs@),
            lookup_last(ps, stem@) == lookup_last(ps.take(i as int), stem@),
        decreases i,
    {
        assert(ps.take(i as int).drop_last() == ps.take(i - 1));
        assert(ps.take(i as int).last() == ps[i - 1]);
        if pairs[i - 1].0 == *stem {
            return Some(pairs[i - 1].1.clone());
        }
        i -= 1;
    }
    None
}

pub open spec fn pairs_view(v: Seq<(String, String)>) -> Seq<(Seq<char>, Seq<char>)> {
    v.map_values(|p: (String, String)| (p.0@, p.1@))
}

fn push_pair(v: &mut Vec<(String, String)>, a: String, b: String)
    ensures
        pairs_view(final(v)@) == pairs_view(old(v)@).push((a@, b@)),
{
    let ghost x = (a@, b@);
    v.push((a, b));
    assert(pairs_view(v@) =~= pairs_view(old(v)@).push(x));
}

impl DevIgniteDoctor {
    pub fn new(symlink_engine: SymlinkEngine) -> (r: Self)
        ensures
            r.symlink_engine == symlink_engine,
    {
        DevIgniteDoctor { symlink_engine }
    }

    /// The directories to create before the other checks: the sandbox's
    /// `bin` and `runtimes` directories when they are missing.
    pub fn integrity_fixes(&self, bin_dir_exists: bool, runtimes_dir_exists: bool) -> (r: Vec<String>)
        ensures
            r@.map_values(|s: String| s@) == (if bin_dir_exists {
                Seq::<Seq<char>>::empty()
            } else {
                seq![self.symlink_engine@.bin_dir]
            }) + (if runtimes_dir_exists {
                Seq::<Seq<char>>::empty()
            } else {
                seq![self.symlink_engine@.runtimes_dir]
            }),
    {
        let mut r: Vec<String> = Vec::new();
        if !bin_dir_exists {
            r.push(self.symlink_engine.bin_dir().clone());
        }
        if !runtimes_dir_exists {
            r.push(self.symlink_engine.runtimes_dir().clone());
        }
        assert(r@.map_values(|s: String| s@) =~= (if bin_dir_exists {
            Seq::<Seq<char>>::empty()
        } else {
            seq![self.symlink_engine@.bin_dir]
        }) + (if runtimes_dir_exists {
            Seq::<Seq<char>>::empty()
        } else {
            seq![self.symlink_engine@.runtimes_dir]
        }));
        r
    }

    /// The issues about the sandbox's directories; missing ones count as
    /// fixed, since `integrity_fixes` creates them.
    pub fn check_sandbox_integrity(&self, bin_dir_existed: bool, runtimes_dir_existed: bool) -> (r: Vec<
        DiagnosticIssue,
    >)
        ensures
            issues_view(r@) == integrity_issues(
                bin_dir_existed,
                self.symlink_engine@.bin_dir,
                runtimes_dir_existed,
                self.symlink_engine@.runtimes_dir,
            ),
    {
        let mut r: Vec<DiagnosticIssue> = Vec::new();
        let bin = self.symlink_engine.bin_dir();
        if bin_dir_existed {
            push_issue(
                &mut r,
                issue(
                    "sandbox_integrity",
                    IssueSeverity::Healthy,
                    owned("Sandbox bin directory exists and is accessible"),
                    Some(bin.clone()),
                    false,
                    false,
                ),
            );
        } else {
            push_issue(
                &mut r,
                issue(
                    "sandbox_integrity",
                    IssueSeverity::Fixed,
                    owned("Sandbox bin directory does not exist"),
                    Some(bin.clone()),
                    true,
                    true,
                ),
            );
        }
        let rt = self.symlink_engine.runtimes_dir();
        if runtimes_dir_existed {
            push_issue(
                &mut r,
                issue(
                    "sandbox_integrity",
                    IssueSeverity::Healthy,
                    owned("Runtimes directory exists"),
                    Some(rt.clone()),
                    false,
                    false,
                ),
            );
        } else {
            push_issue(
                &mut r,
                issue(
                    "sandbox_integrity",
                    IssueSeverity::Fixed,
                    owned("Runtimes directory does not exist"),
                    Some(rt.clone()),
                    true,
                    true,
                ),
            );
        }
        assert(issues_view(r@) =~= integrity_issues(
            bin_dir_existed,
            self.symlink_engine@.bin_dir,
            runtimes_dir_existed,
            self.symlink_engine@.runtimes_dir,
        ));
        r
    }

    /// One issue per link of the `bin` directory, or one error when the
    /// links could not be read.
    pub fn check_symlink_health(&self, health: &Result<Vec<SymlinkHealth>, String>) -> (r: Vec<
        DiagnosticIssue,
    >)
        ensures
            issues_view(r@) == symlink_issues(*health),
    {
        let mut r: Vec<DiagnosticIssue> = Vec::new();
        match health {
            Ok(hs) => {
                for i in 0..hs.len()
                    invariant
                        issues_view(r@) == hs@.take(i as int).map_values(
                            |h: SymlinkHealth| health_issue(h),
                        ),
                {
                    let h = &hs[i];
                    let sym = h.symlink_path.as_str();
                    let tgt = h.target_path.as_str();
                    if h.is_valid {
                        push_issue(
                            &mut r,
                            issue(
                                "symlink_health",
                                IssueSeverity::Healthy,
                                cat4("Symlink OK: ", sym, " -> ", tgt),
                                Some(h.symlink_path.clone()),
                                false,
                                false,
                            ),
                        );
                    } else {
                        push_issue(
                            &mut r,
                            issue(
                                "symlink_health",
                                IssueSeverity::Warning,
                                cat5("Broken symlink: ", sym, " -> ", tgt, " (target missing)"),
                                Some(h.symlink_path.clone()),
                                true,
                                false,
                            ),
                        );
                    }
                    assert(hs@.take(i + 1).map_values(|h: SymlinkHealth| health_issue(h))
                        =~= hs@.take(i as int).map_values(|h: SymlinkHealth| health_issue(h)).push(
                        health_issue(hs@[i as int]),
                    ));
                }
                assert(hs@.take(hs.len() as int) == hs@);
            },
            Err(e) => {
                push_issue(
                    &mut r,
                    issue(
                        "symlink_health",
                        IssueSeverity::Error,
                        concat("Failed to verify symlinks: ", e.as_str()),
                        None,
                        false,
                        false,
                    ),
                );
                assert(issues_view(r@) =~= symlink_issues(*health));
            },
        }
        r
    }

    /// Warnings for binaries of the sandbox's `bin` directory that a PATH
    /// directory also provides (the last PATH directory that has a name
    /// wins); one `Ok` issue when there are none.
    pub fn check_shadowed_binaries(
        &self,
        path_dirs: &Vec<PathDirListing>,
        sandbox_entries: &Option<Vec<NamedEntry>>,
    ) -> (r: Vec<DiagnosticIssue>)
        ensures
            issues_view(r@) == shadow_issues(path_dirs@, *sandbox_entries),
    {
        let mut sys: Vec<(String, String)> = Vec::new();
        for d in 0..path_dirs.len()
            invariant
                pairs_view(sys@) == system_binaries(path_dirs@.take(d as int)),
        {
            assert(path_dirs@.take(d + 1).drop_last() == path_dirs@.take(d as int));
            assert(path_dirs@.take(d + 1).last() == path_dirs@[d as int]);
            let l = &path_dirs[d];
            let ghost start = pairs_view(sys@);
            if l.exists && !l.is_sandbox {
                match &l.entries {
                    Some(es) => {
                        for k in 0..es.len()
                            invariant
                                pairs_view(sys@) == start + named_pairs(es@.take(k as int)),
                        {
                            assert(es@.take(k + 1).drop_last() == es@.take(k as int));
                            assert(es@.take(k + 1).last() == es@[k as int]);
                            match &es[k].name {
                                Some(n) => {
                                    let stem = stem_of(n.as_str());
                                    push_pair(&mut sys, stem, es[k].path.clone());
                                },
                                None => {},
                            }
                        }
                        assert(es@.take(es.len() as int) == es@);
                    },
                    None => {},
                }
            }
        }
        assert(path_dirs@.take(path_dirs.len() as int) == path_dirs@);
        let mut r: Vec<DiagnosticIssue> = Vec::new();
        match sandbox_entries {
            Some(es) => {
                for k in 0..es.len()
                    invariant
                        pairs_view(sys@) == system_binaries(path_dirs@),
                        issues_view(r@) == shadow_warnings(pairs_view(sys@), es@.take(k as int)),
                {
                    assert(es@.take(k + 1).drop_last() == es@.take(k as int));
                    assert(es@.take(k + 1).last() == es@[k as int]);
                    match &es[k].name {
                        Some(n) => {
                            let stem = stem_of(n.as_str());
                            match lookup_last_exec(&sys, &stem) {
                                Some(p) => {
                                    let desc = cat5(
                                        "System binary '",
                                        stem.as_str(),
                                        "' at ",
                                        p.as_str(),
                                        " may shadow DevIgnite's managed version",
                                    );
                                    push_issue(
                                        &mut r,
                                        issue(
                                            "shadowed_binary",
                                            IssueSeverity::Warning,
                                            desc,
                                            Some(p),
                                            false,
                                            false,
                                        ),
                                    );
                                },
                                None => {},
                            }
                        },
                        None => {},
                    }
                }
                assert(es@.take(es.len() as int) == es@);
            },
            None => {},
        }
        if r.len() == 0 {
            push_issue(
                &mut r,
                issue(
                    "shadowed_binary",
                    IssueSeverity::Healthy,
                    owned("No shadowed binaries detected"),
                    None,
                    false,
                    false,
                ),
            );
            assert(issues_view(r@) =~= shadow_issues(path_dirs@, *sandbox_entries));
        }
        r
    }

    /// The temporary directory to empty: the sandbox's `temp` directory,
    /// when it exists and holds files.
    pub fn temp_fix(&self, temp_dir_exists: bool, temp_file_count: u64) -> (r: Option<String>)
        ensures
            match r {
                Some(t) => temp_dir_exists && temp_file_count > 0 && t@ == crate::paths::join_path(
                    self.symlink_engine@.sandbox_root,
                    "temp"@,
                    self.symlink_engine@.windows,
                ),
                None => !(temp_dir_exists && temp_file_count > 0),
            },
    {
        if temp_dir_exists && temp_file_count > 0 {
            Some(self.symlink_engine.temp_dir())
        } else {
            None
        }
    }

    /// The issue about leftover temporary files; ones that are found count
    /// as fixed, since `temp_fix` clears them.
    pub fn check_orphaned_temp_files(
        &self,
        temp_dir_exists: bool,
        temp_file_count: u64,
        size_mb_text: &str,
    ) -> (r: Vec<DiagnosticIssue>)
        ensures
            issues_view(r@) == temp_issues(
                temp_dir_exists,
                temp_file_count,
                size_mb_text@,
                crate::paths::join_path(self.symlink_engine@.sandbox_root, "temp"@, self.symlink_engine@.windows),
            ),
    {
        let temp = self.symlink_engine.temp_dir();
        let mut r: Vec<DiagnosticIssue> = Vec::new();
        if !temp_dir_exists {
            push_issue(
                &mut r,
                issue(
                    "orphaned_temp",
                    IssueSeverity::Healthy,
                    owned("No temp directory exists"),
                    None,
                    false,
                    false,
                ),
            );
        } else if temp_file_count > 0 {
            let count = decimal_string(temp_file_count);
            let desc = cat6(
                "Found ",
                count.as_str(),
                " orphaned temp files (",
                size_mb_text,
                " MB) in ",
                temp.as_str(),
            );
            push_issue(
                &mut r,
                issue("orphaned_temp", IssueSeverity::Fixed, desc, Some(temp), true, true),
            );
        } else {
            push_issue(
                &mut r,
                issue(
                    "orphaned_temp",
                    IssueSeverity::Healthy,
                    owned("No orphaned temp files found"),
                    None,
                    false,
                    false,
                ),
            );
        }
        assert(issues_view(r@) =~= temp_issues(
            temp_dir_exists,
            temp_file_count,
            size_mb_text@,
            crate::paths::join_path(self.symlink_engine@.sandbox_root, "temp"@, self.symlink_engine@.windows),
        ));
        r
    }

    /// Whether the sandbox's `bin` directory is on the PATH.
    pub fn check_path_state(&self, path_var: &str) -> (r: Vec<DiagnosticIssue>)
        ensures
            issues_view(r@) == path_state_issues(path_var@, self.symlink_engine@.bin_dir),
    {
        let bin = self.symlink_engine.bin_dir();
        let mut r: Vec<DiagnosticIssue> = Vec::new();
        if path_list_contains_exec(path_var, bin.as_str()) {
            push_issue(
                &mut r,
                issue(
                    "path_state",
                    IssueSeverity::Healthy,
                    owned("Sandbox bin directory is in system PATH"),
                    Some(bin.clone()),
                    false,
                    false,
                ),
            );
        } else {
            push_issue(
                &mut r,
                issue(
                    "path_state",
                    IssueSeverity::Error,
                    owned("Sandbox bin directory is NOT in system PATH"),
                    Some(bin.clone()),
                    true,
                    false,
                ),
            );
        }
        assert(issues_view(r@) =~= path_state_issues(path_var@, self.symlink_engine@.bin_dir));
        r
    }

    /// The runtimes' disk usage, a warning above 10 000 MiB.
    pub fn check_disk_space(&self, runtimes_dir_exists: bool, total_bytes: u64, size_mb_text: &str) -> (r:
        Vec<DiagnosticIssue>)
        ensures
            issues_view(r@) == disk_issues(
                runtimes_dir_exists,
                total_bytes,
                size_mb_text@,
                self.symlink_engine@.runtimes_dir,
            ),
    {
        let mut r: Vec<DiagnosticIssue> = Vec::new();
        if runtimes_dir_exists {
            let severity = if total_bytes > 10_485_760_000u64 {
                IssueSeverity::Warning
            } else {
                IssueSeverity::Healthy
            };
            push_issue(
                &mut r,
                issue(
                    "disk_usage",
                    severity,
                    cat3("Total runtime disk usage: ", size_mb_text, " MB"),
                    Some(self.symlink_engine.runtimes_dir().clone()),
                    false,
                    false,
                ),
            );
        }
        assert(issues_view(r@) =~= disk_issues(
            runtimes_dir_exists,
            total_bytes,
            size_mb_text@,
            self.symlink_engine@.runtimes_dir,
        ));
        r
    }

    /// The whole report: the issues of every check, in order, and their
    /// summary.
    pub fn run_full_diagnostic(&self, obs: &DiagnosticObservations) -> (r: DoctorReport)
        ensures
            r.timestamp@ == obs.timestamp@,
            issues_view(r.issues@) == self.all_issues(*obs),
            summary_of(r.summary, issues_view(r.issues@)),
    {
        let mut issues = self.check_sandbox_integrity(obs.bin_dir_existed, obs.runtimes_dir_existed);
        let mut more = self.check_symlink_health(&obs.symlink_health);
        append_issues(&mut issues, &mut more);
        let mut more = self.check_shadowed_binaries(&obs.path_dirs, &obs.sandbox_entries);
        append_issues(&mut issues, &mut more);
        let mut more = self.check_orphaned_temp_files(
            obs.temp_dir_exists,
            obs.temp_file_count,
            obs.temp_size_mb_text.as_str(),
        );
        append_issues(&mut issues, &mut more);
        let mut more = self.check_path_state(obs.path_var.as_str());
        append_issues(&mut issues, &mut more);
        let mut more = self.check_disk_space(
            obs.runtimes_dir_exists,
            obs.runtimes_total_bytes,
            obs.runtimes_size_mb_text.as_str(),
        );
        append_issues(&mut issues, &mut more);
        let summary = summarize(&issues);
        DoctorReport { timestamp: obs.timestamp.clone(), issues, summary }
    }
}

fn append_issues(dst: &mut Vec<DiagnosticIssue>, src: &mut Vec<DiagnosticIssue>)
    ensures
        issues_view(final(dst)@) == issues_view(old(dst)@) + issues_view(old(src)@),
{
    let ghost a = old(dst)@;
    let ghost b = old(src)@;
    dst.append(src);
    assert(issues_view(dst@) =~= issues_view(a) + issues_view(b));
}

/// Counts the issues by severity.
pub fn summarize(issues: &Vec<DiagnosticIssue>) -> (r: DoctorSummary)
    ensures
        summary_of(r, issues_view(issues@)),
{
    let ghost iv = issues_view(issues@);
    let mut passed: usize = 0;
    let mut warnings: usize = 0;
    let mut errors: usize = 0;
    let mut fixed: usize = 0;
    for i in 0..issues.len()
        invariant
            iv == issues_view(issues@),
            passed == count_severity(iv.take(i as int), IssueSeverity::Healthy),
            warnings == count_severity(iv.take(i as int), IssueSeverity::Warning),
            errors == count_severity(iv.take(i as int), IssueSeverity::Error),
            fixed == count_severity(iv.take(i as int), IssueSeverity::Fixed),
            passed + warnings + errors + fixed == i,
    {
        proof {
            law_summary_counts_partition(iv.take(i as int));
        }
        assert(iv.take(i + 1).drop_last() == iv.take(i as int));
        assert(iv.take(i + 1).last() == issues@[i as int]@);
        match issues[i].severity {
            IssueSeverity::Healthy => passed += 1,
            IssueSeverity::Warning => warnings += 1,
            IssueSeverity::Error => errors += 1,
            IssueSeverity::Fixed => fixed += 1,
        }
    }
    assert(iv.take(issues.len() as int) == iv);
    DoctorSummary { total_checks: issues.len(), passed, warnings, errors, fixed }
}

} // verus!
