//! The secure install pipeline: download an archive, verify its SHA-256
//! checksum, unpack it into the sandbox and mark the runtime's binary
//! executable.
//!
//! The pipeline is a state machine (`InstallRun`): each call of `step` takes
//! the outcome of the previous outside operation and names the next one.  The
//! operations themselves (HTTP, files) are performed by the caller.
use vstd::prelude::*;
use crate::checksum::{
    digest_matches, digest_matches_exec, hex_lower, lemma_blank_text_is_ascii, lemma_hex_lower_text,
    matches_ascii_checksum, sha256, sha256_hex, without_blanks,
};
use crate::paths::{file_name, file_name_of, join, join_path};
use crate::text::{
    ascii_lowercase, concat, ends_with, ends_with_str, is_ascii_text, owned, trim_end_matches,
    trim_end_matches_str,
};

verus! {

/// An archive format the pipeline can unpack.
#[derive(Clone, Copy, PartialEq, Eq, Structural)]
pub enum ArchiveKind {
    TarGz,
    Zip,
}

/// How an archive is to be unpacked: its format, and whether the format was
/// recognised from the leading bytes rather than from the file name.
#[derive(Clone, Copy, PartialEq, Eq, Structural)]
pub struct ExtractPlan {
    pub kind: ArchiveKind,
    pub by_magic: bool,
}

/// Error of `extract_by_magic`.
pub enum MagicError {
    /// The leading bytes are neither gzip's nor a zip local header's.
    Unrecognized,
}

/// One entry of a directory walk (at most three levels deep).
pub struct TreeEntry {
    pub path: String,
    /// The entry's file name, when it is valid Unicode.
    pub name: Option<String>,
    pub is_file: bool,
}

/// Why an install failed.
pub enum InstallError {
    /// The request could not be sent.
    RequestFailed(String),
    /// The server answered with a status outside 200..=299.
    HttpStatus(u16),
    /// The temporary file could not be created.
    TempFileFailed(String),
    /// A chunk of the body could not be read.
    ChunkFailed(String),
    /// A chunk could not be written to the temporary file.
    WriteFailed(String),
    /// The temporary file could not be flushed.
    FlushFailed(String),
    /// The content's digest differs from the expected checksum.
    ChecksumMismatch { expected: String, computed: String },
    /// The runtime directory could not be created.
    RuntimeDirFailed(String),
    /// The downloaded archive could not be read back.
    ReadArchiveFailed(String),
    /// Neither the file name nor the leading bytes identify the format.
    UnrecognizedArchive,
    /// Unpacking failed.
    ExtractFailed { plan: ExtractPlan, message: String },
    /// The binary's permissions could not be changed.
    PermissionsFailed(String),
    /// An outcome arrived that the current stage does not expect.
    UnexpectedEvent,
}

/// The outcome of the outside operation that the pipeline asked for last.
pub enum InstallEvent {
    /// Response headers arrived, with this status code.
    Response { status: u16 },
    /// The next chunk of the body.
    Chunk(Vec<u8>),
    /// The body is complete.
    EndOfStream,
    /// The operation succeeded and produced nothing.
    Completed,
    /// The contents of the archive file.
    ArchiveBytes(Vec<u8>),
    /// The entries of the runtime directory, in walk order.
    Tree(Vec<TreeEntry>),
    /// The operation failed, with this message.
    Failed(String),
}

/// The next outside operation.
pub enum InstallAction {
    SendRequest { url: String },
    CreateTempFile { path: String },
    ReadChunk,
    WriteChunk { data: Vec<u8> },
    FlushTempFile,
    /// Remove the temporary file; its outcome does not matter.
    DiscardTempFile { path: String },
    CreateRuntimeDir { path: String },
    ReadArchive { path: String },
    Unpack { plan: ExtractPlan, data: Vec<u8>, dest: String },
    /// Walk the runtime directory three levels deep.
    ListRuntimeTree { dir: String },
    /// Add the permission bits of `executable_mode` to this file.
    MakeExecutable { path: String },
    /// Remove the temporary file; its outcome does not matter.
    RemoveTempFile { path: String },
    /// The pipeline is over.
    Finish(Result<String, InstallError>),
}

/// Where an `InstallRun` stands.
#[derive(Clone, Copy, PartialEq, Eq, Structural)]
pub enum InstallStage {
    Start,
    Requesting,
    CreatingTemp,
    Reading,
    Writing,
    Flushing,
    Discarding,
    CreatingRuntimeDir,
    ReadingArchive,
    Unpacking,
    Listing,
    MarkingExecutable,
    RemovingTemp,
    Finished,
}

/// The state of one install.
pub struct InstallRun {
    pub url: String,
    pub expected_sha256: String,
    pub binary_name: String,
    pub temp_file: String,
    pub runtime_dir: String,
    /// Whether the platform is Unix, with permission bits; otherwise it is
    /// Windows, whose paths are joined with `\`.
    pub unix: bool,
    /// Every byte of the body received so far, in order.
    pub received: Vec<u8>,
    /// The lower-case hexadecimal digest, once computed.
    pub computed: String,
    /// The unpacking plan, once chosen.
    pub plan: ExtractPlan,
    pub stage: InstallStage,
}

/// The downloader's directories.
pub struct SecureDownloader {
    pub home: String,
    pub cache_dir: String,
    pub temp_dir: String,
    /// Whether the platform is Unix; otherwise it is Windows.
    pub unix: bool,
}

// ---------------------------------------------------------------------------
// Models
// ---------------------------------------------------------------------------

/// `<home>/.devignite`.
pub open spec fn sandbox_root_of(home: Seq<char>, windows: bool) -> Seq<char> {
    join_path(home, ".devignite"@, windows)
}

/// `<home>/.devignite/runtimes/<language>/<version>`.
pub open spec fn runtime_dir_of(
    home: Seq<char>,
    language: Seq<char>,
    version: Seq<char>,
    windows: bool,
) -> Seq<char> {
    join_path(
        join_path(join_path(sandbox_root_of(home, windows), "runtimes"@, windows), language, windows),
        version,
        windows,
    )
}

/// The name of the temporary download file.
pub open spec fn temp_name(language: Seq<char>, version: Seq<char>, id: Seq<char>) -> Seq<char> {
    language + "-"@ + version + "-"@ + id + ".tmp"@
}

/// The format that the leading bytes announce.
pub open spec fn magic_kind(data: Seq<u8>) -> Option<ArchiveKind> {
    if data.len() >= 2 && data[0] == 0x1f && data[1] == 0x8b {
        Some(ArchiveKind::TarGz)
    } else if data.len() >= 4 && data[0] == 0x50 && data[1] == 0x4b && data[2] == 0x03 && data[3]
        == 0x04 {
        Some(ArchiveKind::Zip)
    } else {
        None
    }
}

/// How an archive with this file name and content is unpacked.
pub open spec fn archive_plan(name: Seq<char>, data: Seq<u8>) -> Option<ExtractPlan> {
    if ends_with(name, ".tar.gz"@) || ends_with(name, ".tgz"@) {
        Some(ExtractPlan { kind: ArchiveKind::TarGz, by_magic: false })
    } else if ends_with(name, ".zip"@) {
        Some(ExtractPlan { kind: ArchiveKind::Zip, by_magic: false })
    } else {
        match magic_kind(data) {
            Some(k) => Some(ExtractPlan { kind: k, by_magic: true }),
            None => None,
        }
    }
}

/// The entry is the runtime's binary: a file whose name, without `.exe`
/// suffixes, is the binary name.
pub open spec fn is_binary_entry(e: TreeEntry, binary_name: Seq<char>) -> bool {
    &&& e.name is Some
    &&& trim_end_matches(e.name->0@, ".exe"@) == binary_name
    &&& e.is_file
}

/// The index of the first entry that is the runtime's binary, if any.
pub open spec fn first_binary_entry(entries: Seq<TreeEntry>, binary_name: Seq<char>) -> Option<int>
    decreases entries.len(),
{
    if entries.len() == 0 {
        None
    } else if is_binary_entry(entries[0], binary_name) {
        Some(0)
    } else {
        match first_binary_entry(entries.drop_first(), binary_name) {
            Some(i) => Some(i + 1),
            None => None,
        }
    }
}

/// The stages in which the download has been verified.
pub open spec fn is_verified_stage(s: InstallStage) -> bool {
    ||| s == InstallStage::CreatingRuntimeDir
    ||| s == InstallStage::ReadingArchive
    ||| s == InstallStage::Unpacking
    ||| s == InstallStage::Listing
    ||| s == InstallStage::MarkingExecutable
    ||| s == InstallStage::RemovingTemp
}

/// `action` finishes the pipeline with the error that reports a failure of
/// the operation asked for in `stage`, carrying `msg`.
pub open spec fn fails_with_message(action: InstallAction, stage: InstallStage, msg: Seq<char>) -> bool {
    match action {
        InstallAction::Finish(Err(InstallError::RequestFailed(m))) => stage
            == InstallStage::Requesting && m@ == msg,
        InstallAction::Finish(Err(InstallError::TempFileFailed(m))) => stage
            == InstallStage::CreatingTemp && m@ == msg,
        InstallAction::Finish(Err(InstallError::ChunkFailed(m))) => stage == InstallStage::Reading
            && m@ == msg,
        InstallAction::Finish(Err(InstallError::WriteFailed(m))) => stage == InstallStage::Writing
            && m@ == msg,
        InstallAction::Finish(Err(InstallError::FlushFailed(m))) => stage
            == InstallStage::Flushing && m@ == msg,
        InstallAction::Finish(Err(InstallError::RuntimeDirFailed(m))) => stage
            == InstallStage::CreatingRuntimeDir && m@ == msg,
        InstallAction::Finish(Err(InstallError::ReadArchiveFailed(m))) => stage
            == InstallStage::ReadingArchive && m@ == msg,
        InstallAction::Finish(Err(InstallError::PermissionsFailed(m))) => stage
            == InstallStage::MarkingExecutable && m@ == msg,
        _ => false,
    }
}

/// The complete transition relation of the pipeline: from state `s`, on
/// outcome `e`, the pipeline moves to state `t` and asks for `a`.
pub open spec fn install_step(s: InstallRun, e: InstallEvent, t: InstallRun, a: InstallAction) -> bool {
    let unexpected = a matches InstallAction::Finish(Err(InstallError::UnexpectedEvent))
        && t.stage == InstallStage::Finished;
    &&& t.url == s.url
    &&& t.expected_sha256 == s.expected_sha256
    &&& t.binary_name == s.binary_name
    &&& t.temp_file == s.temp_file
    &&& t.runtime_dir == s.runtime_dir
    &&& t.unix == s.unix
    &&& (match a {
        InstallAction::WriteChunk { data } => t.received@ == s.received@ + data@,
        _ => t.received@ == s.received@,
    })
    &&& (s.stage != InstallStage::Flushing ==> t.computed@ == s.computed@)
    &&& (s.stage != InstallStage::ReadingArchive ==> t.plan == s.plan)
    &&& match s.stage {
        InstallStage::Start => a matches InstallAction::SendRequest { url } && url@ == s.url@
            && t.stage == InstallStage::Requesting,
        InstallStage::Requesting => match e {
            InstallEvent::Response { status } => if 200 <= status && status <= 299 {
                a matches InstallAction::CreateTempFile { path } && path@ == s.temp_file@
                    && t.stage == InstallStage::CreatingTemp
            } else {
                a matches InstallAction::Finish(Err(InstallError::HttpStatus(c))) && c == status
                    && t.stage == InstallStage::Finished
            },
            InstallEvent::Failed(m) => fails_with_message(a, s.stage, m@) && t.stage
                == InstallStage::Finished,
            _ => unexpected,
        },
        InstallStage::CreatingTemp | InstallStage::Writing => match e {
            InstallEvent::Completed => a is ReadChunk && t.stage == InstallStage::Reading,
            InstallEvent::Failed(m) => fails_with_message(a, s.stage, m@)
                && t.stage == InstallStage::Finished,
            _ => unexpected,
        },
        InstallStage::Reading => match e {
            InstallEvent::Chunk(d) => a matches InstallAction::WriteChunk { data } && data@ == d@
                && t.stage == InstallStage::Writing,
            InstallEvent::EndOfStream => a is FlushTempFile && t.stage == InstallStage::Flushing,
            InstallEvent::Failed(m) => fails_with_message(a, s.stage, m@) && t.stage
                == InstallStage::Finished,
            _ => unexpected,
        },
        InstallStage::Flushing => match e {
            InstallEvent::Completed => {
                &&& t.computed@ == hex_lower(sha256(s.received@))
                &&& if digest_matches(s.received@, s.expected_sha256@) {
                    a matches InstallAction::CreateRuntimeDir { path } && path@ == s.runtime_dir@
                        && t.stage == InstallStage::CreatingRuntimeDir
                } else {
                    a matches InstallAction::DiscardTempFile { path } && path@ == s.temp_file@
                        && t.stage == InstallStage::Discarding
                }
            },
            InstallEvent::Failed(m) => fails_with_message(a, s.stage, m@) && t.stage
                == InstallStage::Finished && t.computed@ == s.computed@,
            _ => unexpected && t.computed@ == s.computed@,
        },
        InstallStage::Discarding => (a matches InstallAction::Finish(
            Err(InstallError::ChecksumMismatch { expected, computed }),
        ) && expected@ == s.expected_sha256@ && computed@ == s.computed@) && t.stage
            == InstallStage::Finished,
        InstallStage::CreatingRuntimeDir => match e {
            InstallEvent::Completed => a matches InstallAction::ReadArchive { path } && path@
                == s.temp_file@ && t.stage == InstallStage::ReadingArchive,
            InstallEvent::Failed(m) => fails_with_message(a, s.stage, m@) && t.stage
                == InstallStage::Finished,
            _ => unexpected,
        },
        InstallStage::ReadingArchive => match e {
            InstallEvent::ArchiveBytes(d) => match archive_plan(file_name(s.temp_file@, !s.unix), d@) {
                Some(p) => a matches InstallAction::Unpack { plan, data, dest } && plan == p
                    && data@ == d@ && dest@ == s.runtime_dir@ && t.plan == p && t.stage
                    == InstallStage::Unpacking,
                None => a matches InstallAction::Finish(Err(InstallError::UnrecognizedArchive))
                    && t.stage == InstallStage::Finished && t.plan == s.plan,
            },
            InstallEvent::Failed(m) => fails_with_message(a, s.stage, m@) && t.stage
                == InstallStage::Finished && t.plan == s.plan,
            _ => unexpected && t.plan == s.plan,
        },
        InstallStage::Unpacking => match e {
            InstallEvent::Completed => if s.unix {
                a matches InstallAction::ListRuntimeTree { dir } && dir@ == s.runtime_dir@
                    && t.stage == InstallStage::Listing
            } else {
                a matches InstallAction::RemoveTempFile { path } && path@ == s.temp_file@
                    && t.stage == InstallStage::RemovingTemp
            },
            InstallEvent::Failed(m) => (a matches InstallAction::Finish(
                Err(InstallError::ExtractFailed { plan, message }),
            ) && plan == s.plan && message@ == m@) && t.stage == InstallStage::Finished,
            _ => unexpected,
        },
        InstallStage::Listing => match e {
            InstallEvent::Tree(entries) => match first_binary_entry(entries@, s.binary_name@) {
                Some(i) => a matches InstallAction::MakeExecutable { path } && path@
                    == entries@[i].path@ && t.stage == InstallStage::MarkingExecutable,
                None => a matches InstallAction::RemoveTempFile { path } && path@ == s.temp_file@
                    && t.stage == InstallStage::RemovingTemp,
            },
            _ => unexpected,
        },
        InstallStage::MarkingExecutable => match e {
            InstallEvent::Completed => a matches InstallAction::RemoveTempFile { path } && path@
                == s.temp_file@ && t.stage == InstallStage::RemovingTemp,
            InstallEvent::Failed(m) => fails_with_message(a, s.stage, m@) && t.stage
                == InstallStage::Finished,
            _ => unexpected,
        },
        InstallStage::RemovingTemp => a matches InstallAction::Finish(Ok(dir)) && dir@
            == s.runtime_dir@ && t.stage == InstallStage::Finished,
        InstallStage::Finished => unexpected,
    }
}

/// Once the body is complete, the pipeline goes on to install exactly when
/// the bytes received pass the same check as `verify_cached_file`;
/// otherwise it discards the temporary file.
pub proof fn law_pipeline_accepts_exactly_verified_content(
    s: InstallRun,
    t: InstallRun,
    a: InstallAction,
)
    requires
        s.stage == InstallStage::Flushing,
        install_step(s, InstallEvent::Completed, t, a),
    ensures
        (a is CreateRuntimeDir) == digest_matches(s.received@, s.expected_sha256@),
        (a is DiscardTempFile) == !digest_matches(s.received@, s.expected_sha256@),
        t.received@ == s.received@,
{
}

/// Every byte the pipeline writes to the temporary file is recorded, in
/// order: a write of `data` extends the bytes received by exactly `data`.
pub proof fn law_writes_are_recorded(s: InstallRun, e: InstallEvent, t: InstallRun, a: InstallAction)
    requires
        install_step(s, e, t, a),
    ensures
        match a {
            InstallAction::WriteChunk { data } => t.received@ == s.received@ + data@,
            _ => t.received@ == s.received@,
        },
{
}

/// The runtime directory is where everything happens after verification:
/// the archive is unpacked into it, it is the directory walked for the
/// binary, and it is what a successful install reports.  The temporary file
/// is the one created, written, read back and removed; the bytes written and
/// unpacked are the ones received; the binary made executable is a walked
/// file named after it.  On Unix, once the
/// archive is unpacked the pipeline walks it; elsewhere it goes straight to
/// removing the temporary file.
pub proof fn law_binary_is_sought_in_the_runtime_dir(
    s: InstallRun,
    e: InstallEvent,
    t: InstallRun,
    a: InstallAction,
)
    requires
        install_step(s, e, t, a),
    ensures
        a matches InstallAction::ListRuntimeTree { dir } ==> dir@ == s.runtime_dir@,
        a matches InstallAction::Unpack { dest, .. } ==> dest@ == s.runtime_dir@,
        a matches InstallAction::Finish(Ok(d)) ==> d@ == s.runtime_dir@,
        a matches InstallAction::RemoveTempFile { path } ==> path@ == s.temp_file@,
        a matches InstallAction::DiscardTempFile { path } ==> path@ == s.temp_file@,
        a matches InstallAction::CreateTempFile { path } ==> path@ == s.temp_file@,
        a matches InstallAction::ReadArchive { path } ==> path@ == s.temp_file@,
        a matches InstallAction::CreateRuntimeDir { path } ==> path@ == s.runtime_dir@,
        a matches InstallAction::SendRequest { url } ==> url@ == s.url@,
        a matches InstallAction::Unpack { data, .. } ==> (e matches InstallEvent::ArchiveBytes(d)
            && data@ == d@),
        a matches InstallAction::WriteChunk { data } ==> (e matches InstallEvent::Chunk(d) && data@
            == d@),
        a matches InstallAction::Finish(Err(InstallError::ChecksumMismatch { expected, computed }))
            ==> expected@ == s.expected_sha256@ && computed@ == s.computed@,
        a matches InstallAction::MakeExecutable { path } ==> (e matches InstallEvent::Tree(
            entries,
        ) && exists|i: int|
            0 <= i < entries@.len() && (#[trigger] entries@[i]).path@ == path@
                && entries@[i].is_file && (entries@[i].name matches Some(n) && trim_end_matches(
                n@,
                ".exe"@,
            ) == s.binary_name@)),
        t.runtime_dir == s.runtime_dir,
        s.stage == InstallStage::Unpacking && e is Completed ==> if s.unix {
            a is ListRuntimeTree
        } else {
            a is RemoveTempFile
        },
{
    if let InstallAction::MakeExecutable { path } = a {
        if let InstallEvent::Tree(entries) = e {
            let i = first_binary_entry(entries@, s.binary_name@)->0;
            lemma_first_binary_entry_is_one(entries@, s.binary_name@);
            assert(entries@[i].path@ == path@);
        }
    }
}

proof fn lemma_first_binary_entry_is_one(entries: Seq<TreeEntry>, name: Seq<char>)
    ensures
        first_binary_entry(entries, name) matches Some(i) ==> 0 <= i < entries.len()
            && is_binary_entry(entries[i], name),
    decreases entries.len(),
{
    if entries.len() > 0 && !is_binary_entry(entries[0], name) {
        lemma_first_binary_entry_is_one(entries.drop_first(), name);
    }
}

/// A name ending in `.tar.gz` or `.tgz` is unpacked as a gzip tarball and
/// one ending in `.zip` as a zip archive, whatever the bytes; any other name
/// is recognised by its leading bytes alone: gzip's `1f 8b`, else a zip
/// header `PK 03 04`, else not at all.
pub proof fn law_extension_decides_format(name: Seq<char>, data: Seq<u8>)
    ensures
        ends_with(name, ".tar.gz"@) || ends_with(name, ".tgz"@) ==> archive_plan(name, data)
            == Some(ExtractPlan { kind: ArchiveKind::TarGz, by_magic: false }),
        ends_with(name, ".zip"@) ==> archive_plan(name, data) == Some(
            ExtractPlan { kind: ArchiveKind::Zip, by_magic: false },
        ),
        !ends_with(name, ".tar.gz"@) && !ends_with(name, ".tgz"@) && !ends_with(name, ".zip"@)
            ==> match archive_plan(name, data) {
            Some(p) => p.by_magic && (p.kind == ArchiveKind::TarGz <==> (data.len() >= 2
                && data[0] == 0x1f && data[1] == 0x8b)) && (p.kind == ArchiveKind::Zip ==> (
            data.len() >= 4 && data[0] == 0x50 && data[1] == 0x4b && data[2] == 0x03 && data[3]
                == 0x04)),
            None => !(data.len() >= 2 && data[0] == 0x1f && data[1] == 0x8b) && !(data.len() >= 4
                && data[0] == 0x50 && data[1] == 0x4b && data[2] == 0x03 && data[3] == 0x04),
        },
{
    reveal_strlit(".tar.gz");
    reveal_strlit(".tgz");
    reveal_strlit(".zip");
    if ends_with(name, ".zip"@) {
        let n = name.len();
        assert(name[n - 1] == 'p') by {
            assert(name.subrange(n - 4, n as int)[3] == name[n - 1]);
        }
        if ends_with(name, ".tar.gz"@) {
            assert(name.subrange(n - 7, n as int)[6] == name[n - 1]);
        }
        if ends_with(name, ".tgz"@) {
            assert(name.subrange(n - 4, n as int)[3] == name[n - 1]);
        }
    }
}

impl InstallRun {
    /// The pipeline's invariant: once past verification, the bytes received
    /// are exactly the ones whose digest was checked, and it matched.
    pub open spec fn inv(&self) -> bool {
        is_verified_stage(self.stage) ==> digest_matches(self.received@, self.expected_sha256@)
    }
}

// ---------------------------------------------------------------------------
// Executable functions
// ---------------------------------------------------------------------------

/// Recognises an archive by its leading bytes: gzip (`1f 8b`) or a zip local
/// file header (`PK 03 04`).
pub fn extract_by_magic(data: &[u8]) -> (r: Result<ArchiveKind, MagicError>)
    ensures
        match r {
            Ok(k) => magic_kind(data@) == Some(k),
            Err(_) => magic_kind(data@) is None,
        },
{
    if data.len() >= 2 && data[0] == 0x1f && data[1] == 0x8b {
        return Ok(ArchiveKind::TarGz);
    }
    if data.len() >= 4 && data[0] == 0x50 && data[1] == 0x4b && data[2] == 0x03 && data[3] == 0x04 {
        return Ok(ArchiveKind::Zip);
    }
    Err(MagicError::Unrecognized)
}

/// Chooses how to unpack an archive: by its file name's extension, else by
/// its leading bytes.
pub fn choose_extract_plan(archive_name: &str, data: &[u8]) -> (r: Option<ExtractPlan>)
    ensures
        r == archive_plan(archive_name@, data@),
{
    if ends_with_str(archive_name, ".tar.gz") || ends_with_str(archive_name, ".tgz") {
        Some(ExtractPlan { kind: ArchiveKind::TarGz, by_magic: false })
    } else if ends_with_str(archive_name, ".zip") {
        Some(ExtractPlan { kind: ArchiveKind::Zip, by_magic: false })
    } else {
        match extract_by_magic(data) {
            Ok(k) => Some(ExtractPlan { kind: k, by_magic: true }),
            Err(_) => None,
        }
    }
}

/// The permission bits after making a file executable: `mode | 0o755`.
pub fn executable_mode(mode: u32) -> (r: u32)
    ensures
        r == mode | 0o755u32,
        r & 0o755u32 == 0o755u32,
        r & mode == mode,
        r & !0o755u32 == mode & !0o755u32,
{
    assert((mode | 0o755u32) & 0o755u32 == 0o755u32) by (bit_vector);
    assert((mode | 0o755u32) & mode == mode) by (bit_vector);
    assert((mode | 0o755u32) & !0o755u32 == mode & !0o755u32) by (bit_vector);
    mode | 0o755
}

/// The first walked entry that is the runtime's binary.
pub fn find_binary_entry(entries: &Vec<TreeEntry>, binary_name: &str) -> (r: Option<usize>)
    ensures
        match r {
            Some(i) => i < entries.len() && first_binary_entry(entries@, binary_name@) == Some(
                i as int,
            ),
            None => first_binary_entry(entries@, binary_name@) is None,
        },
{
    proof {
        reveal_strlit(".exe");
    }
    let n = entries.len();
    let mut i: usize = 0;
    while i < n
        invariant
            i <= n == entries.len(),
            forall|j: int| 0 <= j < i ==> !#[trigger] is_binary_entry(entries@[j], binary_name@),
        decreases n - i,
    {
        let e = &entries[i];
        proof {
            reveal_strlit(".exe");
        }
        let hit = match &e.name {
            Some(name) => {
                let stem = trim_end_matches_str(name.as_str(), ".exe");
                stem == owned(binary_name) && e.is_file
            },
            None => false,
        };
        if hit {
            proof {
                lemma_first_binary_entry_at(entries@, binary_name@, i as int);
            }
            return Some(i);
        }
        i += 1;
    }
    proof {
        lemma_no_binary_entry(entries@, binary_name@);
    }
    None
}

proof fn lemma_first_binary_entry_at(entries: Seq<TreeEntry>, name: Seq<char>, i: int)
    requires
        0 <= i < entries.len(),
        is_binary_entry(entries[i], name),
        forall|j: int| 0 <= j < i ==> !#[trigger] is_binary_entry(entries[j], name),
    ensures
        first_binary_entry(entries, name) == Some(i),
    decreases i,
{
    if i > 0 {
        lemma_first_binary_entry_at(entries.drop_first(), name, i - 1);
    }
}

proof fn lemma_no_binary_entry(entries: Seq<TreeEntry>, name: Seq<char>)
    requires
        forall|j: int| 0 <= j < entries.len() ==> !#[trigger] is_binary_entry(entries[j], name),
    ensures
        first_binary_entry(entries, name) is None,
    decreases entries.len(),
{
    if entries.len() > 0 {
        assert(!is_binary_entry(entries[0], name));
        lemma_no_binary_entry(entries.drop_first(), name);
    }
}

fn append_bytes(dst: &mut Vec<u8>, src: &Vec<u8>)
    ensures
        final(dst)@ == old(dst)@ + src@,
{
    for i in 0..src.len()
        invariant
            dst@ == old(dst)@ + src@.take(i as int),
    {
        dst.push(src[i]);
        assert(src@.take(i + 1) == src@.take(i as int).push(src@[i as int]));
    }
    assert(src@.take(src.len() as int) == src@);
}

impl SecureDownloader {
    /// The downloader for a home directory: its cache and temporary
    /// directories are `<home>/.devignite/cache` and `<home>/.devignite/temp`.
    pub fn new(home: &str, unix: bool) -> (r: SecureDownloader)
        ensures
            r.home@ == home@,
            r.cache_dir@ == join_path(sandbox_root_of(home@, !unix), "cache"@, !unix),
            r.temp_dir@ == join_path(sandbox_root_of(home@, !unix), "temp"@, !unix),
            r.unix == unix,
    {
        let root = join(home, ".devignite", !unix);
        SecureDownloader {
            home: owned(home),
            cache_dir: join(root.as_str(), "cache", !unix),
            temp_dir: join(root.as_str(), "temp", !unix),
            unix,
        }
    }

    /// The directory that a runtime is installed into.
    pub fn runtime_dir(&self, language: &str, version: &str) -> (r: String)
        ensures
            r@ == runtime_dir_of(self.home@, language@, version@, !self.unix),
    {
        let w = !self.unix;
        let root = join(self.home.as_str(), ".devignite", w);
        let runtimes = join(root.as_str(), "runtimes", w);
        let lang = join(runtimes.as_str(), language, w);
        join(lang.as_str(), version, w)
    }

    /// The temporary file for one download, named after the language, the
    /// version and a fresh identifier.
    pub fn temp_file(&self, language: &str, version: &str, id: &str) -> (r: String)
        ensures
            r@ == join_path(self.temp_dir@, temp_name(language@, version@, id@), !self.unix),
    {
        let a = concat(language, "-");
        let b = concat(a.as_str(), version);
        let c = concat(b.as_str(), "-");
        let d = concat(c.as_str(), id);
        let name = concat(d.as_str(), ".tmp");
        join(self.temp_dir.as_str(), name.as_str(), !self.unix)
    }

    /// Starts an install of `language` `version` from `url`, to be checked
    /// against `expected_sha256`; `id` makes the temporary file unique.
    pub fn download_and_install(
        &self,
        url: &str,
        expected_sha256: &str,
        language: &str,
        version: &str,
        binary_name: &str,
        id: &str,
    ) -> (r: InstallRun)
        ensures
            r.url@ == url@,
            r.expected_sha256@ == expected_sha256@,
            r.binary_name@ == binary_name@,
            r.temp_file@ == join_path(self.temp_dir@, temp_name(language@, version@, id@), !self.unix),
            r.runtime_dir@ == runtime_dir_of(self.home@, language@, version@, !self.unix),
            r.unix == self.unix,
            r.received@ == Seq::<u8>::empty(),
            r.stage == InstallStage::Start,
            r.inv(),
    {
        InstallRun {
            url: owned(url),
            expected_sha256: owned(expected_sha256),
            binary_name: owned(binary_name),
            temp_file: self.temp_file(language, version, id),
            runtime_dir: self.runtime_dir(language, version),
            unix: self.unix,
            received: Vec::new(),
            computed: String::new(),
            plan: ExtractPlan { kind: ArchiveKind::TarGz, by_magic: false },
            stage: InstallStage::Start,
        }
    }

    /// Whether a file's content matches the expected checksum.
    ///
    /// An ASCII checksum matches exactly when `matches_ascii_checksum` holds;
    /// an expected text with nothing left once spaces and line feeds are
    /// dropped never matches.
    pub fn verify_cached_file(&self, contents: &[u8], expected_sha256: &str) -> (r: bool)
        ensures
            r == digest_matches(contents@, expected_sha256@),
            is_ascii_text(expected_sha256@) ==> (r == matches_ascii_checksum(
                contents@,
                expected_sha256@,
            )),
            without_blanks(expected_sha256@).len() == 0 ==> !r,
    {
        digest_matches_exec(contents, expected_sha256)
    }
}

impl InstallRun {
    fn finish_unexpected(&mut self) -> (a: InstallAction)
        ensures
            a matches InstallAction::Finish(Err(InstallError::UnexpectedEvent)),
            final(self).stage == InstallStage::Finished,
            final(self).url == old(self).url,
            final(self).expected_sha256 == old(self).expected_sha256,
            final(self).binary_name == old(self).binary_name,
            final(self).temp_file == old(self).temp_file,
            final(self).runtime_dir == old(self).runtime_dir,
            final(self).unix == old(self).unix,
            final(self).received == old(self).received,
            final(self).computed == old(self).computed,
            final(self).plan == old(self).plan,
    {
        self.stage = InstallStage::Finished;
        InstallAction::Finish(Err(InstallError::UnexpectedEvent))
    }

    /// Takes the outcome of the last operation and names the next one.
    ///
    /// Success is reported only after the SHA-256 digest of every byte
    /// received, in order, matched the expected checksum; a mismatch removes
    /// the temporary file and reports both checksums.
    pub fn step(&mut self, event: InstallEvent) -> (a: InstallAction)
        requires
            old(self).inv(),
        ensures
            install_step(*old(self), event, *final(self), a),
            final(self).inv(),
            a matches InstallAction::Finish(Ok(_)) ==> digest_matches(
                final(self).received@,
                final(self).expected_sha256@,
            ),
            old(self).stage == InstallStage::Flushing && event is Completed ==> {
                &&& is_ascii_text(old(self).expected_sha256@) ==> ((a is CreateRuntimeDir)
                    == matches_ascii_checksum(old(self).received@, old(self).expected_sha256@))
                &&& without_blanks(old(self).expected_sha256@).len() == 0 ==> a is DiscardTempFile
            },
    {
        match self.stage {
            InstallStage::Start => {
                self.stage = InstallStage::Requesting;
                InstallAction::SendRequest { url: self.url.clone() }
            },
            InstallStage::Requesting => match event {
                InstallEvent::Response { status } => {
                    if 200 <= status && status <= 299 {
                        self.stage = InstallStage::CreatingTemp;
                        InstallAction::CreateTempFile { path: self.temp_file.clone() }
                    } else {
                        self.stage = InstallStage::Finished;
                        InstallAction::Finish(Err(InstallError::HttpStatus(status)))
                    }
                },
                InstallEvent::Failed(m) => {
                    self.stage = InstallStage::Finished;
                    InstallAction::Finish(Err(InstallError::RequestFailed(m)))
                },
                _ => self.finish_unexpected(),
            },
            InstallStage::CreatingTemp => match event {
                InstallEvent::Completed => {
                    self.stage = InstallStage::Reading;
                    InstallAction::ReadChunk
                },
                InstallEvent::Failed(m) => {
                    self.stage = InstallStage::Finished;
                    InstallAction::Finish(Err(InstallError::TempFileFailed(m)))
                },
                _ => self.finish_unexpected(),
            },
            InstallStage::Writing => match event {
                InstallEvent::Completed => {
                    self.stage = InstallStage::Reading;
                    InstallAction::ReadChunk
                },
                InstallEvent::Failed(m) => {
                    self.stage = InstallStage::Finished;
                    InstallAction::Finish(Err(InstallError::WriteFailed(m)))
                },
                _ => self.finish_unexpected(),
            },
            InstallStage::Reading => match event {
                InstallEvent::Chunk(d) => {
                    append_bytes(&mut self.received, &d);
                    self.stage = InstallStage::Writing;
                    InstallAction::WriteChunk { data: d }
                },
                InstallEvent::EndOfStream => {
                    self.stage = InstallStage::Flushing;
                    InstallAction::FlushTempFile
                },
                InstallEvent::Failed(m) => {
                    self.stage = InstallStage::Finished;
                    InstallAction::Finish(Err(InstallError::ChunkFailed(m)))
                },
                _ => self.finish_unexpected(),
            },
            InstallStage::Flushing => match event {
                InstallEvent::Completed => {
                    let computed = sha256_hex(self.received.as_slice());
                    proof {
                        lemma_hex_lower_text(sha256(self.received@));
                        if without_blanks(self.expected_sha256@).len() == 0 {
                            lemma_blank_text_is_ascii(self.expected_sha256@);
                            assert(ascii_lowercase(without_blanks(self.expected_sha256@)).len()
                                == 0);
                        }
                    }
                    let ok = crate::checksum::hex_str_eq(
                        computed.as_str(),
                        self.expected_sha256.as_str(),
                    );
                    self.computed = computed;
                    if ok {
                        self.stage = InstallStage::CreatingRuntimeDir;
                        InstallAction::CreateRuntimeDir { path: self.runtime_dir.clone() }
                    } else {
                        self.stage = InstallStage::Discarding;
                        InstallAction::DiscardTempFile { path: self.temp_file.clone() }
                    }
                },
                InstallEvent::Failed(m) => {
                    self.stage = InstallStage::Finished;
                    InstallAction::Finish(Err(InstallError::FlushFailed(m)))
                },
                _ => self.finish_unexpected(),
            },
            InstallStage::Discarding => {
                self.stage = InstallStage::Finished;
                InstallAction::Finish(
                    Err(
                        InstallError::ChecksumMismatch {
                            expected: self.expected_sha256.clone(),
                            computed: self.computed.clone(),
                        },
                    ),
                )
            },
            InstallStage::CreatingRuntimeDir => match event {
                InstallEvent::Completed => {
                    self.stage = InstallStage::ReadingArchive;
                    InstallAction::ReadArchive { path: self.temp_file.clone() }
                },
                InstallEvent::Failed(m) => {
                    self.stage = InstallStage::Finished;
                    InstallAction::Finish(Err(InstallError::RuntimeDirFailed(m)))
                },
                _ => self.finish_unexpected(),
            },
            InstallStage::ReadingArchive => match event {
                InstallEvent::ArchiveBytes(d) => {
                    let name = file_name_of(self.temp_file.as_str(), !self.unix);
                    match choose_extract_plan(name.as_str(), d.as_slice()) {
                        Some(p) => {
                            self.plan = p;
                            self.stage = InstallStage::Unpacking;
                            InstallAction::Unpack { plan: p, data: d, dest: self.runtime_dir.clone() }
                        },
                        None => {
                            self.stage = InstallStage::Finished;
                            InstallAction::Finish(Err(InstallError::UnrecognizedArchive))
                        },
                    }
                },
                InstallEvent::Failed(m) => {
                    self.stage = InstallStage::Finished;
                    InstallAction::Finish(Err(InstallError::ReadArchiveFailed(m)))
                },
                _ => self.finish_unexpected(),
            },
            InstallStage::Unpacking => match event {
                InstallEvent::Completed => {
                    if self.unix {
                        self.stage = InstallStage::Listing;
                        InstallAction::ListRuntimeTree { dir: self.runtime_dir.clone() }
                    } else {
                        self.stage = InstallStage::RemovingTemp;
                        InstallAction::RemoveTempFile { path: self.temp_file.clone() }
                    }
                },
                InstallEvent::Failed(m) => {
                    self.stage = InstallStage::Finished;
                    InstallAction::Finish(
                        Err(InstallError::ExtractFailed { plan: self.plan, message: m }),
                    )
                },
                _ => self.finish_unexpected(),
            },
            InstallStage::Listing => match event {
                InstallEvent::Tree(entries) => {
                    match find_binary_entry(&entries, self.binary_name.as_str()) {
                        Some(i) => {
                            self.stage = InstallStage::MarkingExecutable;
                            InstallAction::MakeExecutable { path: entries[i].path.clone() }
                        },
                        None => {
                            self.stage = InstallStage::RemovingTemp;
                            InstallAction::RemoveTempFile { path: self.temp_file.clone() }
                        },
                    }
                },
                _ => self.finish_unexpected(),
            },
            InstallStage::MarkingExecutable => match event {
                InstallEvent::Completed => {
                    self.stage = InstallStage::RemovingTemp;
                    InstallAction::RemoveTempFile { path: self.temp_file.clone() }
                },
                InstallEvent::Failed(m) => {
                    self.stage = InstallStage::Finished;
                    InstallAction::Finish(Err(InstallError::PermissionsFailed(m)))
                },
                _ => self.finish_unexpected(),
            },
            InstallStage::RemovingTemp => {
                self.stage = InstallStage::Finished;
                InstallAction::Finish(Ok(self.runtime_dir.clone()))
            },
            InstallStage::Finished => self.finish_unexpected(),
        }
    }
}

} // verus!
