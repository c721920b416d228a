//! The decisions behind the application's commands.
use vstd::prelude::*;
use crate::models::InstalledRuntime;
use crate::text::owned;

verus! {

/// Why a command failed before doing any work.
pub enum CommandError {
    /// No runtime of the language has this id.
    RuntimeNotFound(String),
}

/// The index of the first runtime with this id.
pub open spec fn first_with_id(rs: Seq<InstalledRuntime>, id: Seq<char>) -> Option<int>
    decreases rs.len(),
{
    if rs.len() == 0 {
        None
    } else if rs[0].id@ == id {
        Some(0)
    } else {
        match first_with_id(rs.drop_first(), id) {
            Some(i) => Some(i + 1),
            None => None,
        }
    }
}

proof fn lemma_first_with_id_at(rs: Seq<InstalledRuntime>, id: Seq<char>, i: int)
    requires
        0 <= i < rs.len(),
        rs[i].id@ == id,
        forall|j: int| 0 <= j < i ==> (#[trigger] rs[j]).id@ != id,
    ensures
        first_with_id(rs, id) == Some(i),
    decreases i,
{
    if i > 0 {
        lemma_first_with_id_at(rs.drop_first(), id, i - 1);
    }
}

proof fn lemma_first_with_id_none(rs: Seq<InstalledRuntime>, id: Seq<char>)
    requires
        forall|j: int| 0 <= j < rs.len() ==> (#[trigger] rs[j]).id@ != id,
    ensures
        first_with_id(rs, id) is None,
    decreases rs.len(),
{
    if rs.len() > 0 {
        assert(rs[0].id@ != id);
        lemma_first_with_id_none(rs.drop_first(), id);
    }
}

/// Finds the runtime with this id among a language's runtimes.
pub fn find_runtime_by_id(runtimes: &Vec<InstalledRuntime>, runtime_id: &str) -> (r: Result<
    usize,
    CommandError,
>)
    ensures
        match r {
            Ok(i) => i < runtimes.len() && first_with_id(runtimes@, runtime_id@) == Some(i as int),
            Err(CommandError::RuntimeNotFound(id)) => id@ == runtime_id@ && first_with_id(
                runtimes@,
                runtime_id@,
            ) is None,
        },
{
    let id = owned(runtime_id);
    for i in 0..runtimes.len()
        invariant
            id@ == runtime_id@,
            forall|j: int| 0 <= j < i ==> (#[trigger] runtimes@[j]).id@ != runtime_id@,
    {
        if runtimes[i].id == id {
            proof {
                lemma_first_with_id_at(runtimes@, runtime_id@, i as int);
            }
            return Ok(i);
        }
    }
    proof {
        lemma_first_with_id_none(runtimes@, runtime_id@);
    }
    Err(CommandError::RuntimeNotFound(id))
}

/// The record of a freshly installed runtime: active, with its checksum
/// verified.
pub fn installed_runtime_record(
    id: &str,
    language: &str,
    version: &str,
    install_path: &str,
    symlink_path: &str,
    installed_at: &str,
    binary_name: &str,
) -> (r: InstalledRuntime)
    ensures
        r.id@ == id@,
        r.language@ == language@,
        r.version@ == version@,
        r.install_path@ == install_path@,
        r.symlink_path@ == symlink_path@,
        r.installed_at@ == installed_at@,
        r.is_active,
        r.checksum_verified,
        r.binary_name@ == binary_name@,
{
    InstalledRuntime {
        id: owned(id),
        language: owned(language),
        version: owned(version),
        install_path: owned(install_path),
        symlink_path: owned(symlink_path),
        installed_at: owned(installed_at),
        is_active: true,
        checksum_verified: true,
        binary_name: owned(binary_name),
    }
}

} // verus!
