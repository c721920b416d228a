//! The sandbox's layout and the decisions behind its links: which binary a
//! link points to, which links a version switch creates, which ones an
//! uninstall removes, and how healthy the existing links are.
//!
//! Every operation takes what the caller observed on disk as plain values and
//! returns the file-system actions to perform, in order.
use vstd::prelude::*;
use crate::paths::{join, join_path};
use crate::text::{file_stem, file_stem_str, last_index_of, owned, trim_end_matches, trim_end_matches_str};

verus! {

/// The sandbox: its root, the `bin` directory on the PATH and the directory
/// that holds the installed runtimes, which are always `<root>/bin` and
/// `<root>/runtimes`.
pub struct SymlinkEngine {
    sandbox_root: String,
    bin_dir: String,
    runtimes_dir: String,
    windows: bool,
}

/// The layout of a sandbox.
pub struct SandboxLayout {
    pub sandbox_root: Seq<char>,
    pub bin_dir: Seq<char>,
    pub runtimes_dir: Seq<char>,
    /// Whether paths are joined, and binaries found, the Windows way.
    pub windows: bool,
}

impl SymlinkEngine {
    /// The engine's layout.
    pub closed spec fn layout(&self) -> SandboxLayout {
        SandboxLayout {
            sandbox_root: self.sandbox_root@,
            bin_dir: self.bin_dir@,
            runtimes_dir: self.runtimes_dir@,
            windows: self.windows,
        }
    }

    /// `bin` and `runtimes` are the root's subdirectories of those names.
    #[verifier::type_invariant]
    spec fn well_laid_out(self) -> bool {
        &&& self.bin_dir@ == join_path(self.sandbox_root@, "bin"@, self.windows)
        &&& self.runtimes_dir@ == join_path(self.sandbox_root@, "runtimes"@, self.windows)
    }
}

impl View for SymlinkEngine {
    type V = SandboxLayout;

    open spec fn view(&self) -> SandboxLayout {
        self.layout()
    }
}

/// The state of one entry of the `bin` directory.
pub struct SymlinkHealth {
    pub symlink_path: String,
    pub target_path: String,
    pub is_valid: bool,
}

/// Why a link operation failed.
pub enum SandboxError {
    /// The runtime's directory does not exist.
    RuntimeDirMissing(String),
    /// The binary was found neither by name nor by walking the directory.
    BinaryNotFound { binary: String, dir: String },
    /// The version to switch to is not installed.
    TargetVersionMissing(String),
}

/// A file-system change in the `bin` directory.
pub enum SandboxAction {
    /// Remove the link (or file) at this path.
    RemoveLink(String),
    /// Create a link at `link` that points to `source`.
    CreateLink { source: String, link: String },
}

/// What the caller observed when looking for a binary and its link.
pub struct LinkObservation {
    /// Whether the runtime's directory exists.
    pub runtime_dir_exists: bool,
    /// For each path of `binary_candidates`, whether it exists.
    pub candidates_exist: Vec<bool>,
    /// The entries of the runtime's directory, three levels deep, in walk order.
    pub walked: Vec<WalkedEntry>,
    /// Whether something is at the link's path.
    pub link_present: bool,
}

/// An entry found by walking a directory.
pub struct WalkedEntry {
    pub path: String,
    /// Its file name, when that is valid Unicode.
    pub name: Option<String>,
}

/// The actions that create one link, and the link's path.
pub struct LinkPlan {
    pub actions: Vec<SandboxAction>,
    pub link: String,
}

/// An entry of a directory that may hold runtime binaries.
pub struct DirEntryInfo {
    /// Its file name, when that is valid Unicode.
    pub name: Option<String>,
    pub is_file: bool,
    /// Its permission bits, when they could be read.
    pub mode: Option<u32>,
}

/// What the caller observed of the directories that may hold binaries: the
/// entries of each existing directory of `search_dirs`, in that order.
pub struct BinaryListing {
    pub dirs: Vec<Vec<DirEntryInfo>>,
}

/// A discovered binary and whether its link is present.
pub struct BinaryLink {
    pub name: String,
    pub link_present: bool,
}

/// An entry of the `bin` directory, as seen without following links.
pub enum BinEntryKind {
    /// A link, its target (empty when unreadable) and whether that exists.
    Symlink { target: String, target_exists: bool },
    File,
    Other,
}

/// An entry of the `bin` directory.
pub struct BinEntry {
    pub path: String,
    pub kind: BinEntryKind,
}

/// The directories that uninstalling a runtime removes: the runtime's own
/// directory, when it exists, and then the language's directory, which is
/// removed only if it is left empty.
pub struct CleanupPlan {
    pub runtime_dir: Option<String>,
    pub language_dir: String,
}

/// The actions of a version switch, the links it creates, and the failure
/// that stopped it, if any.
pub struct SwitchPlan {
    pub actions: Vec<SandboxAction>,
    pub created: Vec<String>,
    pub error: Option<SandboxError>,
}

// ---------------------------------------------------------------------------
// Models
// ---------------------------------------------------------------------------

/// The file names a binary may have in a runtime's top directory.
pub open spec fn candidate_names(name: Seq<char>, windows: bool) -> Seq<Seq<char>> {
    if windows {
        seq![name + ".exe"@, name, name + ".cmd"@, name + ".bat"@]
    } else {
        seq![name]
    }
}

/// A walked entry that is the binary: its name without `.exe` suffixes is
/// the binary name.
pub open spec fn names_binary(e: WalkedEntry, name: Seq<char>) -> bool {
    e.name is Some && trim_end_matches(e.name->0@, ".exe"@) == name
}

/// The first index at which `flags` holds, if any.
pub open spec fn first_true(flags: Seq<bool>) -> Option<int>
    decreases flags.len(),
{
    if flags.len() == 0 {
        None
    } else if flags[0] {
        Some(0)
    } else {
        match first_true(flags.drop_first()) {
            Some(i) => Some(i + 1),
            None => None,
        }
    }
}

/// The first walked entry that is the binary, if any.
pub open spec fn first_named(walked: Seq<WalkedEntry>, name: Seq<char>) -> Option<int>
    decreases walked.len(),
{
    if walked.len() == 0 {
        None
    } else if names_binary(walked[0], name) {
        Some(0)
    } else {
        match first_named(walked.drop_first(), name) {
            Some(i) => Some(i + 1),
            None => None,
        }
    }
}

/// Where the binary is: the first candidate that exists, else the first
/// walked entry that names it.
pub open spec fn located_binary(
    dir: Seq<char>,
    name: Seq<char>,
    windows: bool,
    candidates_exist: Seq<bool>,
    walked: Seq<WalkedEntry>,
) -> Option<Seq<char>> {
    let cands = candidate_names(name, windows);
    let m = if candidates_exist.len() < cands.len() {
        candidates_exist.len()
    } else {
        cands.len()
    };
    match first_true(candidates_exist.take(m as int)) {
        Some(i) => Some(join_path(dir, cands[i], windows)),
        None => match first_named(walked, name) {
            Some(j) => Some(walked[j].path@),
            None => None,
        },
    }
}

/// The extension of a file name: the text after its last `.`, unless the
/// only `.` is the first character.
pub open spec fn extension(name: Seq<char>) -> Option<Seq<char>> {
    let k = last_index_of(name, '.');
    if k <= 0 || name == seq!['.', '.'] {
        None
    } else {
        Some(name.skip(k + 1))
    }
}

/// Whether an entry counts as an executable.
pub open spec fn is_executable_entry(e: DirEntryInfo, windows: bool) -> bool {
    if windows {
        e.name is Some && match extension(e.name->0@) {
            Some(x) => x == "exe"@ || x == "cmd"@ || x == "bat"@ || x == "ps1"@,
            None => false,
        }
    } else {
        e.mode matches Some(m) && m & 0o111u32 != 0
    }
}

/// The binary name an entry contributes, if any: the stem of an executable
/// file.
pub open spec fn entry_binary(e: DirEntryInfo, windows: bool) -> Option<Seq<char>> {
    if e.is_file && is_executable_entry(e, windows) && e.name is Some {
        Some(file_stem(e.name->0@))
    } else {
        None
    }
}

/// The binary names of a sequence of entries, each name once, in order of
/// first appearance, after those already in `found`.
pub open spec fn add_binaries(found: Seq<Seq<char>>, es: Seq<DirEntryInfo>, windows: bool) -> Seq<
    Seq<char>,
>
    decreases es.len(),
{
    if es.len() == 0 {
        found
    } else {
        let before = add_binaries(found, es.drop_last(), windows);
        match entry_binary(es.last(), windows) {
            Some(b) => if before.contains(b) {
                before
            } else {
                before.push(b)
            },
            None => before,
        }
    }
}

/// The binaries of a runtime, from the directories searched in order.
pub open spec fn discovered_binaries(dirs: Seq<Vec<DirEntryInfo>>, windows: bool) -> Seq<Seq<char>>
    decreases dirs.len(),
{
    if dirs.len() == 0 {
        Seq::<Seq<char>>::empty()
    } else {
        add_binaries(discovered_binaries(dirs.drop_last(), windows), dirs.last()@, windows)
    }
}

/// The plan that creates a link for `name` in the `bin` directory.
pub open spec fn link_plan_ok(
    bin_dir: Seq<char>,
    windows: bool,
    name: Seq<char>,
    source: Seq<char>,
    link_present: bool,
    plan: LinkPlan,
) -> bool {
    &&& plan.link@ == join_path(bin_dir, name, windows)
    &&& if link_present {
        plan.actions@.len() == 2 && (plan.actions@[0] matches SandboxAction::RemoveLink(p) && p@
            == plan.link@) && (plan.actions@[1] matches SandboxAction::CreateLink { source: s, link }
            && s@ == source && link@ == plan.link@)
    } else {
        plan.actions@.len() == 1 && (plan.actions@[0] matches SandboxAction::CreateLink {
            source: s,
            link,
        } && s@ == source && link@ == plan.link@)
    }
}

/// The observation with whether something is at the link's path replaced.
pub open spec fn with_link_present(obs: LinkObservation, present: bool) -> LinkObservation {
    LinkObservation {
        runtime_dir_exists: obs.runtime_dir_exists,
        candidates_exist: obs.candidates_exist,
        walked: obs.walked,
        link_present: present,
    }
}

/// One of the plans creates a link at this path.
pub open spec fn linked_before(plans: Seq<Result<LinkPlan, SandboxError>>, link: Seq<char>) -> bool
    decreases plans.len(),
{
    if plans.len() == 0 {
        false
    } else {
        linked_before(plans.drop_last(), link) || (plans.last() matches Ok(p) && p.link@ == link)
    }
}

impl SymlinkEngine {
    /// `<runtimes>/<language>/<version>`.
    pub open spec fn runtime_dir_spec(&self, language: Seq<char>, version: Seq<char>) -> Seq<char> {
        join_path(join_path(self@.runtimes_dir, language, self@.windows), version, self@.windows)
    }

    /// The outcome of `switch_version`: nothing happens when the version is
    /// not installed; otherwise the actions are those of each binary's link,
    /// in order, and the first binary that cannot be found stops the switch
    /// with its error.
    pub open spec fn switch_outcome_ok(
        &self,
        language: Seq<char>,
        version: Seq<char>,
        runtime_dir_exists: bool,
        binaries: Seq<(String, LinkObservation)>,
        r: SwitchPlan,
    ) -> bool {
        &&& !runtime_dir_exists ==> (r.actions@.len() == 0 && r.created@.len() == 0 && (r.error
            matches Some(SandboxError::TargetVersionMissing(d)) && d@ == self.runtime_dir_spec(
            language,
            version,
        )))
        &&& runtime_dir_exists ==> exists|plans: Seq<LinkPlan>|
            #![trigger concat_actions(plans)]
            {
                &&& plans.len() == r.created@.len()
                &&& plans.len() <= binaries.len()
                &&& r.actions@ == concat_actions(plans)
                &&& forall|k: int|
                    0 <= k < plans.len() ==> (#[trigger] plans[k]).link@ == r.created@[k]@
                        && self.create_outcome_ok(
                        language,
                        version,
                        binaries[k].0@,
                        binaries[k].1,
                        Ok(plans[k]),
                    )
                &&& forall|k: int|
                    0 <= k < r.created@.len() ==> (#[trigger] r.created@[k])@ == join_path(
                        self@.bin_dir,
                        binaries[k].0@,
                        self@.windows,
                    )
                &&& forall|i: int|
                    0 <= i < r.actions@.len() ==> exists|k: int|
                        0 <= k < r.created@.len() && action_target(#[trigger] r.actions@[i])
                            == r.created@[k]@
                &&& match r.error {
                    None => plans.len() == binaries.len(),
                    Some(e) => plans.len() < binaries.len() && self.create_outcome_ok(
                        language,
                        version,
                        binaries[plans.len() as int].0@,
                        binaries[plans.len() as int].1,
                        Err(e),
                    ),
                }
            }
    }

    /// The outcome of `create_symlink` on the given observation.
    pub open spec fn create_outcome_ok(
        &self,
        language: Seq<char>,
        version: Seq<char>,
        name: Seq<char>,
        obs: LinkObservation,
        r: Result<LinkPlan, SandboxError>,
    ) -> bool {
        let dir = self.runtime_dir_spec(language, version);
        if !obs.runtime_dir_exists {
            r matches Err(SandboxError::RuntimeDirMissing(d)) && d@ == dir
        } else {
            match located_binary(dir, name, self@.windows, obs.candidates_exist@, obs.walked@) {
                None => r matches Err(SandboxError::BinaryNotFound { binary, dir: d }) && binary@
                    == name && d@ == dir,
                Some(src) => r matches Ok(plan) && link_plan_ok(
                    self@.bin_dir,
                    self@.windows,
                    name,
                    src,
                    obs.link_present,
                    plan,
                ),
            }
        }
    }
}

/// The path an action changes.
pub open spec fn action_target(a: SandboxAction) -> Seq<char> {
    match a {
        SandboxAction::RemoveLink(p) => p@,
        SandboxAction::CreateLink { link, .. } => link@,
    }
}

/// The actions are the plans' actions, concatenated in order.
pub open spec fn concat_actions(plans: Seq<LinkPlan>) -> Seq<SandboxAction>
    decreases plans.len(),
{
    if plans.len() == 0 {
        Seq::<SandboxAction>::empty()
    } else {
        concat_actions(plans.drop_last()) + plans.last().actions@
    }
}

// ---------------------------------------------------------------------------
// Executable functions
// ---------------------------------------------------------------------------

/// The paths at which a binary may stand in a runtime's top directory.
pub fn binary_candidates(dir: &str, binary_name: &str, windows: bool) -> (r: Vec<String>)
    ensures
        r@.map_values(|s: String| s@) == candidate_names(binary_name@, windows).map_values(
            |c: Seq<char>| join_path(dir@, c, windows),
        ),
{
    let r = if windows {
        let a = crate::text::concat(binary_name, ".exe");
        let c = crate::text::concat(binary_name, ".cmd");
        let b = crate::text::concat(binary_name, ".bat");
        vec![
            join(dir, a.as_str(), windows),
            join(dir, binary_name, windows),
            join(dir, c.as_str(), windows),
            join(dir, b.as_str(), windows),
        ]
    } else {
        vec![join(dir, binary_name, windows)]
    };
    assert(r@.map_values(|s: String| s@) =~= candidate_names(binary_name@, windows).map_values(
        |c: Seq<char>| join_path(dir@, c, windows),
    ));
    r
}

proof fn lemma_first_true_at(flags: Seq<bool>, i: int)
    requires
        0 <= i < flags.len(),
        flags[i],
        forall|j: int| 0 <= j < i ==> !#[trigger] flags[j],
    ensures
        first_true(flags) == Some(i),
    decreases i,
{
    if i > 0 {
        lemma_first_true_at(flags.drop_first(), i - 1);
    }
}

proof fn lemma_first_true_none(flags: Seq<bool>)
    requires
        forall|j: int| 0 <= j < flags.len() ==> !#[trigger] flags[j],
    ensures
        first_true(flags) is None,
    decreases flags.len(),
{
    if flags.len() > 0 {
        lemma_first_true_none(flags.drop_first());
    }
}

proof fn lemma_first_named_at(walked: Seq<WalkedEntry>, name: Seq<char>, i: int)
    requires
        0 <= i < walked.len(),
        names_binary(walked[i], name),
        forall|j: int| 0 <= j < i ==> !#[trigger] names_binary(walked[j], name),
    ensures
        first_named(walked, name) == Some(i),
    decreases i,
{
    if i > 0 {
        lemma_first_named_at(walked.drop_first(), name, i - 1);
    }
}

proof fn lemma_first_named_none(walked: Seq<WalkedEntry>, name: Seq<char>)
    requires
        forall|j: int| 0 <= j < walked.len() ==> !#[trigger] names_binary(walked[j], name),
    ensures
        first_named(walked, name) is None,
    decreases walked.len(),
{
    if walked.len() > 0 {
        assert(!names_binary(walked[0], name));
        lemma_first_named_none(walked.drop_first(), name);
    }
}

/// Finds a binary in a runtime directory: the first candidate path that
/// exists, else the first walked entry whose name, without `.exe`
/// suffixes, is the binary name.
pub fn find_binary_in_dir(
    dir: &str,
    binary_name: &str,
    windows: bool,
    candidates_exist: &Vec<bool>,
    walked: &Vec<WalkedEntry>,
) -> (r: Result<String, SandboxError>)
    ensures
        match r {
            Ok(p) => located_binary(dir@, binary_name@, windows, candidates_exist@, walked@) == Some(
                p@,
            ),
            Err(e) => located_binary(dir@, binary_name@, windows, candidates_exist@, walked@) is None
                && (e matches SandboxError::BinaryNotFound { binary, dir: d } && binary@
                == binary_name@ && d@ == dir@),
        },
{
    let cands = binary_candidates(dir, binary_name, windows);
    let ghost names = candidate_names(binary_name@, windows);
    let n = if candidates_exist.len() < cands.len() {
        candidates_exist.len()
    } else {
        cands.len()
    };
    let ghost flags = candidates_exist@.take(n as int);
    assert(cands@.map_values(|s: String| s@).len() == names.map_values(
        |c: Seq<char>| join_path(dir@, c, windows),
    ).len());
    assert(cands@.len() == names.len());
    let mut i: usize = 0;
    while i < n
        invariant
            i <= n,
            n <= candidates_exist.len(),
            n <= cands.len(),
            n == flags.len(),
            flags == candidates_exist@.take(n as int),
            cands@.len() == names.len(),
            names == candidate_names(binary_name@, windows),
            cands@.map_values(|s: String| s@) == names.map_values(
                |c: Seq<char>| join_path(dir@, c, windows),
            ),
            n == if candidates_exist@.len() < names.len() {
                candidates_exist@.len()
            } else {
                names.len()
            },
            forall|j: int| 0 <= j < i ==> !#[trigger] flags[j],
        decreases n - i,
    {
        assert(flags[i as int] == candidates_exist@[i as int]);
        if candidates_exist[i] {
            proof {
                lemma_first_true_at(flags, i as int);
            }
            assert(cands@.map_values(|s: String| s@)[i as int] == cands@[i as int]@);
            assert(names.map_values(|c: Seq<char>| join_path(dir@, c, windows))[i as int] == join_path(
                dir@,
                names[i as int],
                windows,
            ));
            assert(first_true(flags) == Some(i as int));
            assert((if candidates_exist@.len() < names.len() {
                candidates_exist@.len()
            } else {
                names.len()
            }) == n);
            assert(first_true(candidates_exist@.take(n as int)) == Some(i as int));
            assert(located_binary(dir@, binary_name@, windows, candidates_exist@, walked@) == Some(
                join_path(dir@, names[i as int], windows),
            ));
            return Ok(cands[i].clone());
        }
        i += 1;
    }
    proof {
        lemma_first_true_none(flags);
    }
    let mut j: usize = 0;
    while j < walked.len()
        invariant
            j <= walked.len(),
            first_true(flags) is None,
            flags == candidates_exist@.take(n as int),
            n == if candidates_exist@.len() < names.len() {
                candidates_exist@.len()
            } else {
                names.len()
            },
            names == candidate_names(binary_name@, windows),
            forall|k: int| 0 <= k < j ==> !#[trigger] names_binary(walked@[k], binary_name@),
        decreases walked.len() - j,
    {
        proof {
            reveal_strlit(".exe");
        }
        let hit = match &walked[j].name {
            Some(nm) => trim_end_matches_str(nm.as_str(), ".exe") == owned(binary_name),
            None => false,
        };
        if hit {
            proof {
                lemma_first_named_at(walked@, binary_name@, j as int);
            }
            return Ok(walked[j].path.clone());
        }
        j += 1;
    }
    proof {
        lemma_first_named_none(walked@, binary_name@);
    }
    Err(SandboxError::BinaryNotFound { binary: owned(binary_name), dir: owned(dir) })
}

/// The extension of a file name.
pub fn extension_of(name: &str) -> (r: Option<String>)
    ensures
        match r {
            Some(x) => extension(name@) == Some(x@),
            None => extension(name@) is None,
        },
{
    let v = crate::text::chars_of(name);
    let mut k: usize = v.len();
    assert(v@.take(k as int) == v@);
    while k > 0 && v[k - 1] != '.'
        invariant
            k <= v.len(),
            last_index_of(v@, '.') == last_index_of(v@.take(k as int), '.'),
        decreases k,
    {
        assert(v@.take(k as int).drop_last() == v@.take(k - 1));
        k -= 1;
    }
    if k == 0 {
        assert(v@.take(0) == Seq::<char>::empty());
    } else {
        assert(v@.take(k as int).last() == '.');
    }
    if k <= 1 || (v.len() == 2 && v[0] == '.' && v[1] == '.') {
        proof {
            if v@ == seq!['.', '.'] {
                assert(v@.len() == 2);
            }
            if k > 0 {
                assert(last_index_of(v@.take(k as int), '.') == k - 1);
            }
            if v@.len() == 2 && v@[0] == '.' && v@[1] == '.' {
                assert(v@ == seq!['.', '.']);
            }
        }
        None
    } else {
        proof {
            if v@ == seq!['.', '.'] {
                assert(v@.len() == 2);
            }
        }
        let t = crate::text::slice_chars(&v, k, v.len());
        assert(last_index_of(v@.take(k as int), '.') == k - 1);
        assert(last_index_of(v@, '.') == k - 1);
        assert(v@.subrange(k as int, v@.len() as int) == v@.skip(k as int));
        assert(v@ != seq!['.', '.']);
        assert(extension(name@) == Some(v@.skip(k as int)));
        let x = crate::text::string_of(&t);
        assert(x@ == v@.skip(k as int));
        Some(x)
    }
}

/// Whether a directory entry counts as an executable: on Windows by its
/// extension, elsewhere by any execute permission bit.
pub fn is_executable(e: &DirEntryInfo, windows: bool) -> (r: bool)
    ensures
        r == is_executable_entry(*e, windows),
{
    if windows {
        match &e.name {
            Some(n) => match extension_of(n.as_str()) {
                Some(x) => x == owned("exe") || x == owned("cmd") || x == owned("bat") || x == owned(
                    "ps1",
                ),
                None => false,
            },
            None => false,
        }
    } else {
        match e.mode {
            Some(m) => m & 0o111u32 != 0,
            None => false,
        }
    }
}

fn contains_name(found: &Vec<String>, b: &String) -> (r: bool)
    ensures
        r == found@.map_values(|s: String| s@).contains(b@),
{
    let ghost fs = found@.map_values(|s: String| s@);
    for i in 0..found.len()
        invariant
            fs == found@.map_values(|s: String| s@),
            forall|k: int| 0 <= k < i ==> fs[k] != b@,
    {
        if found[i] == *b {
            assert(fs[i as int] == b@);
            return true;
        }
    }
    false
}

/// The binaries of a runtime: the stems of the executable files of the
/// `bin` subdirectory (when there is one) and then of the top directory,
/// each name once, in order of first appearance.
pub fn discover_runtime_binaries(listing: &BinaryListing, windows: bool) -> (r: Vec<String>)
    ensures
        r@.map_values(|s: String| s@) == discovered_binaries(listing.dirs@, windows),
{
    let mut found: Vec<String> = Vec::new();
    for d in 0..listing.dirs.len()
        invariant
            found@.map_values(|s: String| s@) == discovered_binaries(
                listing.dirs@.take(d as int),
                windows,
            ),
    {
        assert(listing.dirs@.take(d + 1).drop_last() == listing.dirs@.take(d as int));
        let entries = &listing.dirs[d];
        let ghost start = found@.map_values(|s: String| s@);
        for k in 0..entries.len()
            invariant
                found@.map_values(|s: String| s@) == add_binaries(
                    start,
                    entries@.take(k as int),
                    windows,
                ),
        {
            assert(entries@.take(k + 1).drop_last() == entries@.take(k as int));
            let e = &entries[k];
            if e.is_file && is_executable(e, windows) {
                match &e.name {
                    Some(n) => {
                        let stem = file_stem_str(n.as_str());
                        if !contains_name(&found, &stem) {
                            let ghost before = found@;
                            found.push(stem);
                            assert(found@.map_values(|s: String| s@) =~= before.map_values(
                                |s: String| s@,
                            ).push(file_stem(n@)));
                        }
                    },
                    None => {},
                }
            }
        }
        assert(entries@.take(entries.len() as int) == entries@);
        assert(listing.dirs@.take(d + 1).last() == listing.dirs@[d as int]);
    }
    assert(listing.dirs@.take(listing.dirs.len() as int) == listing.dirs@);
    found
}

/// Two subdirectories of one root with names of different lengths differ.
proof fn lemma_subdirs_differ(root: Seq<char>, windows: bool)
    ensures
        join_path(root, "bin"@, windows) != join_path(root, "runtimes"@, windows),
{
    reveal_strlit("bin");
    reveal_strlit("runtimes");
    assert(join_path(root, "bin"@, windows).len() + 5 == join_path(root, "runtimes"@, windows).len());
}

impl SymlinkEngine {
    /// The sandbox under a home directory: `<home>/.devignite`, with `bin`
    /// and `runtimes` inside.
    pub fn new(home: &str, windows: bool) -> (r: Self)
        ensures
            r@.sandbox_root == join_path(home@, ".devignite"@, windows),
            r@.bin_dir == join_path(r@.sandbox_root, "bin"@, windows),
            r@.runtimes_dir == join_path(r@.sandbox_root, "runtimes"@, windows),
            r@.windows == windows,
    {
        let root = join(home, ".devignite", windows);
        let bin = join(root.as_str(), "bin", windows);
        let runtimes = join(root.as_str(), "runtimes", windows);
        SymlinkEngine { sandbox_root: root, bin_dir: bin, runtimes_dir: runtimes, windows }
    }

    /// A second engine with the same layout.
    pub fn clone_layout(&self) -> (r: Self)
        ensures
            r@ == self@,
    {
        proof {
            use_type_invariant(self);
        }
        SymlinkEngine {
            sandbox_root: self.sandbox_root.clone(),
            bin_dir: self.bin_dir.clone(),
            runtimes_dir: self.runtimes_dir.clone(),
            windows: self.windows,
        }
    }

    pub fn sandbox_root(&self) -> (r: &String)
        ensures
            r@ == self@.sandbox_root,
    {
        &self.sandbox_root
    }

    /// The `bin` directory, which is `<root>/bin` for every engine.
    pub fn bin_dir(&self) -> (r: &String)
        ensures
            r@ == self@.bin_dir,
            r@ == join_path(self@.sandbox_root, "bin"@, self@.windows),
    {
        proof {
            use_type_invariant(self);
        }
        &self.bin_dir
    }

    /// The directory of the installed runtimes, which is `<root>/runtimes`
    /// for every engine, and is not the `bin` directory.
    pub fn runtimes_dir(&self) -> (r: &String)
        ensures
            r@ == self@.runtimes_dir,
            r@ == join_path(self@.sandbox_root, "runtimes"@, self@.windows),
            r@ != self@.bin_dir,
    {
        proof {
            use_type_invariant(self);
            lemma_subdirs_differ(self@.sandbox_root, self@.windows);
        }
        &self.runtimes_dir
    }

    /// The directory that downloads pass through: `<root>/temp`.
    pub fn temp_dir(&self) -> (r: String)
        ensures
            r@ == join_path(self@.sandbox_root, "temp"@, self@.windows),
    {
        join(self.sandbox_root.as_str(), "temp", self.windows)
    }

    /// `<runtimes>/<language>/<version>`.
    pub fn runtime_path(&self, language: &str, version: &str) -> (r: String)
        ensures
            r@ == self.runtime_dir_spec(language@, version@),
    {
        let l = join(self.runtimes_dir.as_str(), language, self.windows);
        join(l.as_str(), version, self.windows)
    }

    /// The directories searched for a runtime's binaries: its `bin`
    /// subdirectory first, when there is one, then the runtime's directory.
    pub fn search_dirs(&self, runtime_dir: &str, bin_subdir_exists: bool) -> (r: Vec<String>)
        ensures
            r@.map_values(|s: String| s@) == if bin_subdir_exists {
                seq![join_path(runtime_dir@, "bin"@, self@.windows), runtime_dir@]
            } else {
                seq![runtime_dir@]
            },
    {
        let r = if bin_subdir_exists {
            vec![join(runtime_dir, "bin", self.windows), owned(runtime_dir)]
        } else {
            vec![owned(runtime_dir)]
        };
        assert(r@.map_values(|s: String| s@) =~= if bin_subdir_exists {
            seq![join_path(runtime_dir@, "bin"@, self@.windows), runtime_dir@]
        } else {
            seq![runtime_dir@]
        });
        r
    }

    /// `<runtimes>/<language>`.
    pub fn language_dir(&self, language: &str) -> (r: String)
        ensures
            r@ == join_path(self@.runtimes_dir, language@, self@.windows),
    {
        join(self.runtimes_dir.as_str(), language, self.windows)
    }

    /// `<bin>/<binary>`.
    pub fn link_path(&self, binary_name: &str) -> (r: String)
        ensures
            r@ == join_path(self@.bin_dir, binary_name@, self@.windows),
    {
        join(self.bin_dir.as_str(), binary_name, self.windows)
    }

    /// Links `<bin>/<binary>` to the runtime's binary: the existing link, if
    /// any, is removed first.
    pub fn create_symlink(
        &self,
        language: &str,
        version: &str,
        binary_name: &str,
        obs: &LinkObservation,
    ) -> (r: Result<LinkPlan, SandboxError>)
        ensures
            self.create_outcome_ok(language@, version@, binary_name@, *obs, r),
    {
        let r = self.plan_link(language, version, binary_name, obs, obs.link_present);
        assert(with_link_present(*obs, obs.link_present) == *obs);
        r
    }

    /// `create_symlink`, with whether something is at the link's path given
    /// apart from the rest of the observation.
    fn plan_link(
        &self,
        language: &str,
        version: &str,
        binary_name: &str,
        obs: &LinkObservation,
        link_present: bool,
    ) -> (r: Result<LinkPlan, SandboxError>)
        ensures
            self.create_outcome_ok(
                language@,
                version@,
                binary_name@,
                with_link_present(*obs, link_present),
                r,
            ),
    {
        let dir = self.runtime_path(language, version);
        if !obs.runtime_dir_exists {
            return Err(SandboxError::RuntimeDirMissing(dir));
        }
        let source = match find_binary_in_dir(
            dir.as_str(),
            binary_name,
            self.windows,
            &obs.candidates_exist,
            &obs.walked,
        ) {
            Ok(s) => s,
            Err(e) => return Err(e),
        };
        let link = self.link_path(binary_name);
        let mut actions: Vec<SandboxAction> = Vec::new();
        if link_present {
            actions.push(SandboxAction::RemoveLink(link.clone()));
        }
        actions.push(SandboxAction::CreateLink { source, link: link.clone() });
        Ok(LinkPlan { actions, link })
    }

    /// Removes `<bin>/<binary>` when something is there.
    pub fn remove_symlink(&self, binary_name: &str, link_present: bool) -> (r: Vec<SandboxAction>)
        ensures
            if link_present {
                r@.len() == 1 && (r@[0] matches SandboxAction::RemoveLink(p) && p@ == join_path(
                    self@.bin_dir,
                    binary_name@,
                    self@.windows,
                ))
            } else {
                r@.len() == 0
            },
    {
        let mut r: Vec<SandboxAction> = Vec::new();
        if link_present {
            r.push(SandboxAction::RemoveLink(self.link_path(binary_name)));
        }
        r
    }

    /// Removes the links of every discovered binary of a runtime; nothing
    /// when the runtime is not installed.  Failures of these removals are
    /// to be ignored.
    pub fn remove_all_symlinks_for_runtime(
        &self,
        runtime_dir_exists: bool,
        binaries: &Vec<BinaryLink>,
    ) -> (r: Vec<SandboxAction>)
        ensures
            !runtime_dir_exists ==> r@.len() == 0,
            runtime_dir_exists ==> removals_ok(self@.bin_dir, self@.windows, binaries@, r@),
    {
        let mut r: Vec<SandboxAction> = Vec::new();
        if !runtime_dir_exists {
            return r;
        }
        for i in 0..binaries.len()
            invariant
                removals_ok(self@.bin_dir, self@.windows, binaries@.take(i as int), r@),
        {
            assert(binaries@.take(i + 1).drop_last() == binaries@.take(i as int));
            assert(binaries@.take(i + 1).last() == binaries@[i as int]);
            let b = &binaries[i];
            if b.link_present {
                let ghost before = r@;
                r.push(SandboxAction::RemoveLink(self.link_path(b.name.as_str())));
                assert(r@.drop_last() == before);
            }
        }
        assert(binaries@.take(binaries.len() as int) == binaries@);
        r
    }

    /// Points the links of every binary of `new_version` at it.  The
    /// actions are those of each binary's link, in order; the first binary
    /// that cannot be found stops the switch with its error.
    pub fn switch_version(
        &self,
        language: &str,
        new_version: &str,
        runtime_dir_exists: bool,
        binaries: &Vec<(String, LinkObservation)>,
    ) -> (r: SwitchPlan)
        ensures
            self.switch_outcome_ok(language@, new_version@, runtime_dir_exists, binaries@, r),
    {
        if !runtime_dir_exists {
            return SwitchPlan {
                actions: Vec::new(),
                created: Vec::new(),
                error: Some(SandboxError::TargetVersionMissing(self.runtime_path(language, new_version))),
            };
        }
        let mut actions: Vec<SandboxAction> = Vec::new();
        let mut created: Vec<String> = Vec::new();
        let ghost mut plans: Seq<LinkPlan> = Seq::empty();
        for i in 0..binaries.len()
            invariant
                runtime_dir_exists,
                plans.len() == i,
                created@.len() == i,
                actions@ == concat_actions(plans),
                forall|k: int|
                    0 <= k < created@.len() ==> (#[trigger] created@[k])@ == join_path(
                        self@.bin_dir,
                        binaries@[k].0@,
                        self@.windows,
                    ),
                forall|j: int|
                    0 <= j < actions@.len() ==> exists|k: int|
                        0 <= k < created@.len() && action_target(#[trigger] actions@[j])
                            == created@[k]@,
                forall|k: int|
                    0 <= k < plans.len() ==> (#[trigger] plans[k]).link@ == created@[k]@
                        && self.create_outcome_ok(
                        language@,
                        new_version@,
                        binaries@[k].0@,
                        binaries@[k].1,
                        Ok(plans[k]),
                    ),
        {
            let (name, obs) = (&binaries[i].0, &binaries[i].1);
            match self.create_symlink(language, new_version, name.as_str(), obs) {
                Ok(plan) => {
                    let ghost p = plan;
                    let ghost before = actions@;
                    let mut plan_actions = plan.actions;
                    let link = plan.link;
                    let ghost pa = plan_actions@;
                    actions.append(&mut plan_actions);
                    assert(actions@ == before + pa);
                    proof {
                        let old_plans = plans;
                        plans = plans.push(p);
                        assert(plans.drop_last() == old_plans);
                    }
                    let ghost old_created = created@;
                    created.push(link);
                    assert forall|j: int| 0 <= j < actions@.len() implies exists|k: int|
                        0 <= k < created@.len() && action_target(#[trigger] actions@[j])
                            == created@[k]@ by {
                        if j < before.len() {
                            let k = choose|k: int|
                                0 <= k < old_created.len() && action_target(before[j])
                                    == old_created[k]@;
                            assert(created@[k] == old_created[k]);
                            assert(actions@[j] == before[j]);
                        } else {
                            assert(actions@[j] == pa[j - before.len()]);
                            assert(action_target(pa[j - before.len()]) == p.link@);
                            assert(created@[i as int]@ == p.link@);
                        }
                    }
                    assert forall|k: int|
                        0 <= k < plans.len() implies (#[trigger] plans[k]).link@ == created@[k]@
                        && self.create_outcome_ok(
                        language@,
                        new_version@,
                        binaries@[k].0@,
                        binaries@[k].1,
                        Ok(plans[k]),
                    ) by {}
                },
                Err(e) => {
                    let r = SwitchPlan { actions, created, error: Some(e) };
                    assert(r.actions@ == concat_actions(plans));
                    assert(plans.len() < binaries@.len());
                    return r;
                },
            }
        }
        let r = SwitchPlan { actions, created, error: None };
        assert(plans.len() == r.created@.len());
        assert(plans.len() == binaries@.len());
        assert(r.actions@ == concat_actions(plans));
        assert(forall|k: int|
            0 <= k < r.created@.len() ==> (#[trigger] r.created@[k])@ == join_path(
                self@.bin_dir,
                binaries@[k].0@,
                self@.windows,
            ));
        assert(forall|i: int|
            0 <= i < r.actions@.len() ==> exists|k: int|
                0 <= k < r.created@.len() && action_target(#[trigger] r.actions@[i])
                    == r.created@[k]@);
        r
    }

    /// The health of the `bin` directory's entries: a link is valid when its
    /// target exists, a plain file always is, anything else is skipped.
    /// Nothing is reported when the directory does not exist.
    pub fn verify_symlinks(&self, bin_dir_exists: bool, entries: &Vec<BinEntry>) -> (r: Vec<
        SymlinkHealth,
    >)
        ensures
            !bin_dir_exists ==> r@.len() == 0,
            bin_dir_exists ==> health_ok(entries@, r@),
    {
        let mut r: Vec<SymlinkHealth> = Vec::new();
        if !bin_dir_exists {
            return r;
        }
        for i in 0..entries.len()
            invariant
                health_ok(entries@.take(i as int), r@),
        {
            assert(entries@.take(i + 1).drop_last() == entries@.take(i as int));
            assert(entries@.take(i + 1).last() == entries@[i as int]);
            let e = &entries[i];
            let ghost before = r@;
            match &e.kind {
                BinEntryKind::Symlink { target, target_exists } => {
                    r.push(
                        SymlinkHealth {
                            symlink_path: e.path.clone(),
                            target_path: target.clone(),
                            is_valid: *target_exists,
                        },
                    );
                    assert(r@.drop_last() == before);
                },
                BinEntryKind::File => {
                    r.push(
                        SymlinkHealth {
                            symlink_path: e.path.clone(),
                            target_path: String::new(),
                            is_valid: true,
                        },
                    );
                    assert(r@.drop_last() == before);
                },
                BinEntryKind::Other => {},
            }
        }
        assert(entries@.take(entries.len() as int) == entries@);
        r
    }

    /// What uninstalling `language` `version` removes after its links.
    pub fn cleanup_runtime(&self, language: &str, version: &str, runtime_dir_exists: bool) -> (r:
        CleanupPlan)
        ensures
            match r.runtime_dir {
                Some(d) => runtime_dir_exists && d@ == self.runtime_dir_spec(language@, version@),
                None => !runtime_dir_exists,
            },
            r.language_dir@ == join_path(self@.runtimes_dir, language@, self@.windows),
    {
        let runtime_dir = if runtime_dir_exists {
            Some(self.runtime_path(language, version))
        } else {
            None
        };
        CleanupPlan { runtime_dir, language_dir: self.language_dir(language) }
    }

    /// Re-creates the link of every active runtime; each entry's plan
    /// stands on its own, and a failing entry does not stop the others.
    /// Something is at an entry's link when it was observed there or when
    /// an earlier entry links the same path, so that the last entry for a
    /// binary wins.
    pub fn restore_all_symlinks(
        &self,
        active_versions: &Vec<(String, String, String)>,
        observations: &Vec<LinkObservation>,
    ) -> (r: Vec<Result<LinkPlan, SandboxError>>)
        ensures
            r@.len() == if active_versions@.len() <= observations@.len() {
                active_versions@.len()
            } else {
                observations@.len()
            },
            forall|k: int|
                0 <= k < r@.len() ==> self.create_outcome_ok(
                    active_versions@[k].0@,
                    active_versions@[k].1@,
                    active_versions@[k].2@,
                    with_link_present(
                        observations@[k],
                        observations@[k].link_present || linked_before(
                            r@.take(k),
                            join_path(self@.bin_dir, active_versions@[k].2@, self@.windows),
                        ),
                    ),
                    #[trigger] r@[k],
                ),
    {
        let n = if active_versions.len() <= observations.len() {
            active_versions.len()
        } else {
            observations.len()
        };
        let mut r: Vec<Result<LinkPlan, SandboxError>> = Vec::new();
        for i in 0..n
            invariant
                n <= active_versions.len(),
                n <= observations.len(),
                r@.len() == i,
                forall|k: int|
                    0 <= k < i ==> self.create_outcome_ok(
                        active_versions@[k].0@,
                        active_versions@[k].1@,
                        active_versions@[k].2@,
                        with_link_present(
                            observations@[k],
                            observations@[k].link_present || linked_before(
                                r@.take(k),
                                join_path(self@.bin_dir, active_versions@[k].2@, self@.windows),
                            ),
                        ),
                        #[trigger] r@[k],
                    ),
        {
            let (language, version, binary) = (
                &active_versions[i].0,
                &active_versions[i].1,
                &active_versions[i].2,
            );
            let link = self.link_path(binary.as_str());
            let earlier = linked_in(&r, &link);
            assert(r@.take(i as int) == r@);
            let plan = self.plan_link(
                language.as_str(),
                version.as_str(),
                binary.as_str(),
                &observations[i],
                observations[i].link_present || earlier,
            );
            let ghost before = r@;
            r.push(plan);
            assert forall|k: int| 0 <= k <= i implies #[trigger] r@.take(k) == before.take(k) by {}
            assert forall|k: int| 0 <= k <= i implies r@[k] == (if k < i {
                before[k]
            } else {
                plan
            }) by {}
        }
        r
    }
}

/// Whether one of the plans creates a link at this path.
fn linked_in(plans: &Vec<Result<LinkPlan, SandboxError>>, link: &String) -> (b: bool)
    ensures
        b == linked_before(plans@, link@),
{
    let mut b = false;
    for j in 0..plans.len()
        invariant
            b == linked_before(plans@.take(j as int), link@),
    {
        assert(plans@.take(j + 1).drop_last() == plans@.take(j as int));
        assert(plans@.take(j + 1).last() == plans@[j as int]);
        match &plans[j] {
            Ok(p) => {
                if p.link == *link {
                    b = true;
                }
            },
            Err(_) => {},
        }
    }
    assert(plans@.take(plans.len() as int) == plans@);
    b
}

/// The removals are those of the binaries whose link is present, in order.
pub open spec fn removals_ok(
    bin_dir: Seq<char>,
    windows: bool,
    bs: Seq<BinaryLink>,
    r: Seq<SandboxAction>,
) -> bool
    decreases bs.len(),
{
    if bs.len() == 0 {
        r.len() == 0
    } else if bs.last().link_present {
        r.len() > 0 && (r.last() matches SandboxAction::RemoveLink(p) && p@ == join_path(
            bin_dir,
            bs.last().name@,
            windows,
        )) && removals_ok(bin_dir, windows, bs.drop_last(), r.drop_last())
    } else {
        removals_ok(bin_dir, windows, bs.drop_last(), r)
    }
}

/// The health report of the `bin` directory's entries, in order.
pub open spec fn health_ok(es: Seq<BinEntry>, r: Seq<SymlinkHealth>) -> bool
    decreases es.len(),
{
    if es.len() == 0 {
        r.len() == 0
    } else {
        let e = es.last();
        match e.kind {
            BinEntryKind::Symlink { target, target_exists } => r.len() > 0 && r.last().symlink_path@
                == e.path@ && r.last().target_path@ == target@ && r.last().is_valid
                == target_exists && health_ok(es.drop_last(), r.drop_last()),
            BinEntryKind::File => r.len() > 0 && r.last().symlink_path@ == e.path@
                && r.last().target_path@ == Seq::<char>::empty() && r.last().is_valid && health_ok(
                es.drop_last(),
                r.drop_last(),
            ),
            BinEntryKind::Other => health_ok(es.drop_last(), r),
        }
    }
}

/// The link a binary's creation makes is the one its removal removes.
pub proof fn law_create_then_remove_same_link(
    engine: SymlinkEngine,
    language: Seq<char>,
    version: Seq<char>,
    name: Seq<char>,
    obs: LinkObservation,
    plan: LinkPlan,
)
    requires
        engine.create_outcome_ok(language, version, name, obs, Ok(plan)),
    ensures
        plan.link@ == join_path(engine@.bin_dir, name, engine@.windows),
        plan.actions@.last() matches SandboxAction::CreateLink { source, link } && link@
            == join_path(engine@.bin_dir, name, engine@.windows),
{
}

/// The two observations saw the same runtime files: whether the runtime's
/// directory exists, which candidate paths exist and what walking it gives.
pub open spec fn same_runtime_files(a: LinkObservation, b: LinkObservation) -> bool {
    &&& a.runtime_dir_exists == b.runtime_dir_exists
    &&& a.candidates_exist@ == b.candidates_exist@
    &&& a.walked@ == b.walked@
}

/// The source and the path of the link that an action creates, if it creates
/// one.
pub open spec fn created_link(a: SandboxAction) -> Option<(Seq<char>, Seq<char>)> {
    match a {
        SandboxAction::CreateLink { source, link } => Some((source@, link@)),
        SandboxAction::RemoveLink(_) => None,
    }
}

/// The links that the actions create, in order, each with its source.
pub open spec fn creations(acts: Seq<SandboxAction>) -> Seq<(Seq<char>, Seq<char>)>
    decreases acts.len(),
{
    if acts.len() == 0 {
        Seq::empty()
    } else {
        match created_link(acts.last()) {
            Some(c) => creations(acts.drop_last()).push(c),
            None => creations(acts.drop_last()),
        }
    }
}

/// A link plan's shape: a creation, possibly after a removal.
pub open spec fn plan_shaped(p: LinkPlan) -> bool {
    ||| p.actions@.len() == 1 && p.actions@[0] is CreateLink
    ||| p.actions@.len() == 2 && p.actions@[0] is RemoveLink && p.actions@[1] is CreateLink
}

/// The link each plan creates, in order.
pub open spec fn plan_links(plans: Seq<LinkPlan>) -> Seq<(Seq<char>, Seq<char>)>
    decreases plans.len(),
{
    if plans.len() == 0 {
        Seq::empty()
    } else {
        plan_links(plans.drop_last()).push(created_link(plans.last().actions@.last())->0)
    }
}

/// Making a link again, with the runtime's files as they were, makes the
/// same link to the same binary: what is at the link's path only decides
/// whether it is cleared first.
pub proof fn law_relink_same_binary(
    engine: SymlinkEngine,
    language: Seq<char>,
    version: Seq<char>,
    name: Seq<char>,
    first: LinkObservation,
    again: LinkObservation,
    p1: LinkPlan,
    r2: Result<LinkPlan, SandboxError>,
)
    requires
        engine.create_outcome_ok(language, version, name, first, Ok(p1)),
        engine.create_outcome_ok(language, version, name, again, r2),
        same_runtime_files(first, again),
    ensures
        r2 matches Ok(p2) && p2.link@ == p1.link@ && created_link(p2.actions@.last())
            == created_link(p1.actions@.last()) && created_link(p1.actions@.last()) is Some,
{
}

proof fn lemma_creations_append(a: Seq<SandboxAction>, b: Seq<SandboxAction>)
    ensures
        creations(a + b) == creations(a) + creations(b),
    decreases b.len(),
{
    if b.len() == 0 {
        assert(a + b == a);
    } else {
        lemma_creations_append(a, b.drop_last());
        assert((a + b).drop_last() == a + b.drop_last());
    }
}

proof fn lemma_plan_creations(engine: SymlinkEngine, plans: Seq<LinkPlan>)
    requires
        forall|k: int|
            0 <= k < plans.len() ==> plan_shaped(#[trigger] plans[k]),
    ensures
        creations(concat_actions(plans)) == plan_links(plans),
    decreases plans.len(),
{
    if plans.len() > 0 {
        let p = plans.last();
        assert(plans[plans.len() - 1] == p);
        assert(plan_shaped(p));
        assert forall|k: int| 0 <= k < plans.drop_last().len() implies plan_shaped(
            #[trigger] plans.drop_last()[k],
        ) by {
            assert(plans.drop_last()[k] == plans[k]);
        }
        lemma_plan_creations(engine, plans.drop_last());
        lemma_creations_append(concat_actions(plans.drop_last()), p.actions@);
        let a = p.actions@;
        assert(created_link(a.last()) is Some);
        if a.len() == 2 {
            assert(a.drop_last().last() == a[0]);
            assert(created_link(a.drop_last().last()) is None);
            assert(a.drop_last().drop_last().len() == 0);
            assert(creations(a.drop_last().drop_last()) == Seq::<(Seq<char>, Seq<char>)>::empty());
            assert(creations(a.drop_last()) == creations(a.drop_last().drop_last()));
        } else {
            assert(a.drop_last().len() == 0);
            assert(creations(a.drop_last()) == Seq::<(Seq<char>, Seq<char>)>::empty());
        }
        assert(creations(a) == creations(a.drop_last()).push(created_link(a.last())->0));
        assert(creations(a) =~= seq![created_link(a.last())->0]);
        assert(plans.drop_last().push(p) == plans);
    }
}

/// Switching back to a version whose runtime files are unchanged makes the
/// same links, to the same binaries, as the earlier switch to it; only what
/// is cleared first may differ.
pub proof fn law_switching_back_makes_the_same_links(
    engine: SymlinkEngine,
    language: Seq<char>,
    version: Seq<char>,
    first: Seq<(String, LinkObservation)>,
    again: Seq<(String, LinkObservation)>,
    r1: SwitchPlan,
    r2: SwitchPlan,
)
    requires
        engine.switch_outcome_ok(language, version, true, first, r1),
        r1.error is None,
        engine.switch_outcome_ok(language, version, true, again, r2),
        again.len() == first.len(),
        forall|k: int|
            0 <= k < first.len() ==> (#[trigger] again[k]).0@ == first[k].0@
                && same_runtime_files(first[k].1, again[k].1),
    ensures
        r2.error is None,
        r2.created@.len() == r1.created@.len(),
        forall|k: int| 0 <= k < r1.created@.len() ==> (#[trigger] r2.created@[k])@ == r1.created@[k]@,
        creations(r2.actions@) == creations(r1.actions@),
{
    let plans1 = choose|plans: Seq<LinkPlan>|
        #![trigger concat_actions(plans)]
        {
            &&& plans.len() == r1.created@.len()
            &&& plans.len() <= first.len()
            &&& r1.actions@ == concat_actions(plans)
            &&& forall|k: int|
                0 <= k < plans.len() ==> (#[trigger] plans[k]).link@ == r1.created@[k]@
                    && engine.create_outcome_ok(language, version, first[k].0@, first[k].1, Ok(plans[k]))
            &&& forall|k: int|
                0 <= k < r1.created@.len() ==> (#[trigger] r1.created@[k])@ == join_path(
                    engine@.bin_dir,
                    first[k].0@,
                    engine@.windows,
                )
            &&& forall|i: int|
                0 <= i < r1.actions@.len() ==> exists|k: int|
                    0 <= k < r1.created@.len() && action_target(#[trigger] r1.actions@[i])
                        == r1.created@[k]@
            &&& match r1.error {
                None => plans.len() == first.len(),
                Some(e) => plans.len() < first.len() && engine.create_outcome_ok(
                    language,
                    version,
                    first[plans.len() as int].0@,
                    first[plans.len() as int].1,
                    Err(e),
                ),
            }
        };
    let plans2 = choose|plans: Seq<LinkPlan>|
        #![trigger concat_actions(plans)]
        {
            &&& plans.len() == r2.created@.len()
            &&& plans.len() <= again.len()
            &&& r2.actions@ == concat_actions(plans)
            &&& forall|k: int|
                0 <= k < plans.len() ==> (#[trigger] plans[k]).link@ == r2.created@[k]@
                    && engine.create_outcome_ok(language, version, again[k].0@, again[k].1, Ok(plans[k]))
            &&& forall|k: int|
                0 <= k < r2.created@.len() ==> (#[trigger] r2.created@[k])@ == join_path(
                    engine@.bin_dir,
                    again[k].0@,
                    engine@.windows,
                )
            &&& forall|i: int|
                0 <= i < r2.actions@.len() ==> exists|k: int|
                    0 <= k < r2.created@.len() && action_target(#[trigger] r2.actions@[i])
                        == r2.created@[k]@
            &&& match r2.error {
                None => plans.len() == again.len(),
                Some(e) => plans.len() < again.len() && engine.create_outcome_ok(
                    language,
                    version,
                    again[plans.len() as int].0@,
                    again[plans.len() as int].1,
                    Err(e),
                ),
            }
        };
    if let Some(e) = r2.error {
        let m = plans2.len() as int;
        assert(engine.create_outcome_ok(language, version, first[m].0@, first[m].1, Ok(plans1[m])));
        assert(again[m].0@ == first[m].0@);
        law_relink_same_binary(engine, language, version, first[m].0@, first[m].1, again[m].1, plans1[m], Err(e));
    }
    assert forall|k: int| 0 <= k < r1.created@.len() implies (#[trigger] r2.created@[k])@
        == r1.created@[k]@ by {
        assert(again[k].0@ == first[k].0@);
    }
    // Each plan makes the same link to the same binary.
    assert forall|k: int| 0 <= k < plans1.len() implies created_link(
        (#[trigger] plans2[k]).actions@.last(),
    ) == created_link(plans1[k].actions@.last()) by {
        assert(engine.create_outcome_ok(language, version, first[k].0@, first[k].1, Ok(plans1[k])));
        assert(engine.create_outcome_ok(language, version, again[k].0@, again[k].1, Ok(plans2[k])));
        assert(again[k].0@ == first[k].0@);
        law_relink_same_binary(engine, language, version, first[k].0@, first[k].1, again[k].1, plans1[k], Ok(plans2[k]));
    }
    lemma_plan_links_equal(plans1, plans2);
    lemma_plans_shaped(engine, language, version, first, plans1);
    lemma_plans_shaped(engine, language, version, again, plans2);
    lemma_plan_creations(engine, plans1);
    lemma_plan_creations(engine, plans2);
}

proof fn lemma_plans_shaped(
    engine: SymlinkEngine,
    language: Seq<char>,
    version: Seq<char>,
    bins: Seq<(String, LinkObservation)>,
    plans: Seq<LinkPlan>,
)
    requires
        plans.len() <= bins.len(),
        forall|k: int|
            0 <= k < plans.len() ==> engine.create_outcome_ok(
                language,
                version,
                bins[k].0@,
                bins[k].1,
                Ok(#[trigger] plans[k]),
            ),
    ensures
        forall|k: int|
            0 <= k < plans.len() ==> plan_shaped(#[trigger] plans[k]),
{
    assert forall|k: int| 0 <= k < plans.len() implies plan_shaped(#[trigger] plans[k]) by {
        assert(engine.create_outcome_ok(language, version, bins[k].0@, bins[k].1, Ok(plans[k])));
    }
}

proof fn lemma_plan_links_equal(a: Seq<LinkPlan>, b: Seq<LinkPlan>)
    requires
        a.len() == b.len(),
        forall|k: int|
            0 <= k < a.len() ==> created_link((#[trigger] b[k]).actions@.last()) == created_link(
                a[k].actions@.last(),
            ),
    ensures
        plan_links(a) == plan_links(b),
    decreases a.len(),
{
    if a.len() > 0 {
        assert forall|k: int| 0 <= k < a.drop_last().len() implies created_link(
            (#[trigger] b.drop_last()[k]).actions@.last(),
        ) == created_link(a.drop_last()[k].actions@.last()) by {
            assert(b.drop_last()[k] == b[k]);
            assert(a.drop_last()[k] == a[k]);
        }
        lemma_plan_links_equal(a.drop_last(), b.drop_last());
        assert(created_link(b[b.len() - 1].actions@.last()) == created_link(a[a.len() - 1].actions@.last()));
    }
}

/// The text names no binary twice.
pub open spec fn no_repeats(s: Seq<Seq<char>>) -> bool {
    forall|i: int, j: int| 0 <= i < j < s.len() ==> s[i] != s[j]
}

/// Some entry of one of the directories contributes this binary.
pub open spec fn provided_by(dirs: Seq<Vec<DirEntryInfo>>, windows: bool, b: Seq<char>) -> bool {
    exists|d: int, k: int|
        0 <= d < dirs.len() && 0 <= k < dirs[d]@.len() && #[trigger] entry_binary(
            dirs[d]@[k],
            windows,
        ) == Some(b)
}

proof fn lemma_add_binaries(found: Seq<Seq<char>>, es: Seq<DirEntryInfo>, windows: bool)
    ensures
        forall|b: Seq<char>|
            #[trigger] add_binaries(found, es, windows).contains(b) <==> (found.contains(b)
                || exists|k: int|
                0 <= k < es.len() && #[trigger] entry_binary(es[k], windows) == Some(b)),
        no_repeats(found) ==> no_repeats(add_binaries(found, es, windows)),
    decreases es.len(),
{
    if es.len() > 0 {
        let pre = es.drop_last();
        lemma_add_binaries(found, pre, windows);
        let before = add_binaries(found, pre, windows);
        assert forall|b: Seq<char>|
            #[trigger] add_binaries(found, es, windows).contains(b) <==> (found.contains(b)
                || exists|k: int|
                0 <= k < es.len() && #[trigger] entry_binary(es[k], windows) == Some(b)) by {
            if exists|k: int| 0 <= k < es.len() && #[trigger] entry_binary(es[k], windows) == Some(b) {
                let k = choose|k: int| 0 <= k < es.len() && #[trigger] entry_binary(es[k], windows) == Some(b);
                if k < es.len() - 1 {
                    assert(pre[k] == es[k]);
                    assert(before.contains(b));
                } else {
                    assert(entry_binary(es.last(), windows) == Some(b));
                    if !before.contains(b) {
                        assert(before.push(b)[before.len() as int] == b);
                    }
                }
                match entry_binary(es.last(), windows) {
                    Some(c) => {
                        if !before.contains(c) && before.contains(b) {
                            let j = choose|j: int| 0 <= j < before.len() && before[j] == b;
                            assert(before.push(c)[j] == b);
                        }
                    },
                    None => {},
                }
            }
            if exists|k: int|
                0 <= k < pre.len() && #[trigger] entry_binary(pre[k], windows) == Some(b) {
                let k = choose|k: int| 0 <= k < pre.len() && #[trigger] entry_binary(pre[k], windows) == Some(b);
                assert(pre[k] == es[k]);
            }
            if found.contains(b) {
                assert(before.contains(b));
                match entry_binary(es.last(), windows) {
                    Some(c) => {
                        if !before.contains(c) {
                            let j = choose|j: int| 0 <= j < before.len() && before[j] == b;
                            assert(before.push(c)[j] == b);
                        }
                    },
                    None => {},
                }
            }
            if add_binaries(found, es, windows).contains(b) {
                match entry_binary(es.last(), windows) {
                    Some(c) => {
                        if !before.contains(c) {
                            let j = choose|j: int|
                                0 <= j < before.push(c).len() && before.push(c)[j] == b;
                            if j < before.len() {
                                assert(before[j] == b);
                                assert(before.contains(b));
                            } else {
                                assert(entry_binary(es[es.len() - 1], windows) == Some(b));
                            }
                        }
                    },
                    None => {},
                }
                if before.contains(b) && !found.contains(b) {
                    let k = choose|k: int|
                        0 <= k < pre.len() && #[trigger] entry_binary(pre[k], windows) == Some(b);
                    assert(pre[k] == es[k]);
                }
            }
        }
        if no_repeats(found) {
            match entry_binary(es.last(), windows) {
                Some(c) => {
                    if !before.contains(c) {
                        assert forall|i: int, j: int|
                            0 <= i < j < before.push(c).len() implies before.push(c)[i] != before.push(
                                c,
                            )[j] by {
                            if j == before.len() {
                                assert(before.push(c)[i] == before[i]);
                            }
                        }
                    }
                },
                None => {},
            }
        }
    }
}

/// Discovery finds every binary of every searched directory, and nothing
/// else: each executable regular file of any directory contributes its stem,
/// every name found is some entry's stem, and no name is found twice.  The
/// first directory's binaries come first.
pub proof fn law_discovery_collects_every_binary(dirs: Seq<Vec<DirEntryInfo>>, windows: bool)
    ensures
        forall|b: Seq<char>|
            #[trigger] discovered_binaries(dirs, windows).contains(b) <==> provided_by(
                dirs,
                windows,
                b,
            ),
        no_repeats(discovered_binaries(dirs, windows)),
        dirs.len() > 0 ==> discovered_binaries(dirs.take(1), windows).len()
            <= discovered_binaries(dirs, windows).len() && discovered_binaries(dirs, windows).take(
            discovered_binaries(dirs.take(1), windows).len() as int,
        ) == discovered_binaries(dirs.take(1), windows),
    decreases dirs.len(),
{
    if dirs.len() > 0 {
        let pre = dirs.drop_last();
        law_discovery_collects_every_binary(pre, windows);
        let found = discovered_binaries(pre, windows);
        lemma_add_binaries(found, dirs.last()@, windows);
        assert forall|b: Seq<char>|
            #[trigger] discovered_binaries(dirs, windows).contains(b) <==> provided_by(
                dirs,
                windows,
                b,
            ) by {
            if provided_by(dirs, windows, b) {
                let (d, k) = choose|d: int, k: int|
                    0 <= d < dirs.len() && 0 <= k < dirs[d]@.len() && #[trigger] entry_binary(
                        dirs[d]@[k],
                        windows,
                    ) == Some(b);
                if d < dirs.len() - 1 {
                    assert(pre[d] == dirs[d]);
                    assert(provided_by(pre, windows, b));
                } else {
                    assert(dirs.last()@[k] == dirs[d]@[k]);
                }
            }
            if found.contains(b) {
                assert(provided_by(pre, windows, b));
                let (d, k) = choose|d: int, k: int|
                    0 <= d < pre.len() && 0 <= k < pre[d]@.len() && #[trigger] entry_binary(
                        pre[d]@[k],
                        windows,
                    ) == Some(b);
                assert(pre[d] == dirs[d]);
            }
            if exists|k: int|
                0 <= k < dirs.last()@.len() && #[trigger] entry_binary(dirs.last()@[k], windows)
                    == Some(b) {
                let k = choose|k: int|
                    0 <= k < dirs.last()@.len() && #[trigger] entry_binary(dirs.last()@[k], windows)
                        == Some(b);
                assert(dirs[dirs.len() - 1]@[k] == dirs.last()@[k]);
            }
        }
        if dirs.len() == 1 {
            assert(dirs.take(1) == dirs);
            assert(discovered_binaries(dirs, windows).take(
                discovered_binaries(dirs, windows).len() as int,
            ) == discovered_binaries(dirs, windows));
        } else {
            assert(pre.take(1) == dirs.take(1));
            lemma_add_binaries_extends(found, dirs.last()@, windows);
            let whole = discovered_binaries(dirs, windows);
            let first = discovered_binaries(dirs.take(1), windows);
            assert(whole == add_binaries(found, dirs.last()@, windows));
            assert(whole.take(first.len() as int) == whole.take(found.len() as int).take(
                first.len() as int,
            ));
        }
    }
}

proof fn lemma_add_binaries_extends(found: Seq<Seq<char>>, es: Seq<DirEntryInfo>, windows: bool)
    ensures
        add_binaries(found, es, windows).len() >= found.len(),
        add_binaries(found, es, windows).take(found.len() as int) == found,
    decreases es.len(),
{
    if es.len() > 0 {
        lemma_add_binaries_extends(found, es.drop_last(), windows);
        let before = add_binaries(found, es.drop_last(), windows);
        match entry_binary(es.last(), windows) {
            Some(c) => {
                if !before.contains(c) {
                    assert(before.push(c).take(found.len() as int) == before.take(found.len() as int));
                }
            },
            None => {},
        }
    }
}

/// Only a regular file with a readable name counts as a runtime binary: on
/// Unix, exactly such a file with an execute bit set; on Windows, exactly
/// such a file with an `exe`, `cmd`, `bat` or `ps1` extension.  The name it
/// is linked under is the file name up to its extension.
pub proof fn law_what_counts_as_a_binary(e: DirEntryInfo, windows: bool)
    ensures
        entry_binary(e, windows) is Some ==> e.is_file && e.name is Some,
        !windows ==> (entry_binary(e, false) is Some <==> (e.is_file && e.name is Some && (
        e.mode matches Some(m) && m & 0o111u32 != 0))),
        entry_binary(e, windows) matches Some(b) ==> b == e.name->0@.take(b.len() as int) && (b.len()
            == e.name->0@.len() || e.name->0@[b.len() as int] == '.'),
{
    if let Some(b) = entry_binary(e, windows) {
        let name = e.name->0@;
        let k = last_index_of(name, '.');
        lemma_last_index_of(name, '.');
        if k <= 0 || name == seq!['.', '.'] {
            assert(name.take(name.len() as int) == name);
        }
    }
}

proof fn lemma_last_index_of(s: Seq<char>, c: char)
    ensures
        -1 <= last_index_of(s, c) < s.len(),
        last_index_of(s, c) >= 0 ==> s[last_index_of(s, c)] == c,
    decreases s.len(),
{
    if s.len() > 0 && s.last() != c {
        lemma_last_index_of(s.drop_last(), c);
    }
}

} // verus!
