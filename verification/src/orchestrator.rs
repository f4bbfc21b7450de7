//! Per-request build orchestration: each incoming request gets one fresh
//! virtual filesystem, the effective entry point is resolved from the
//! request, the external build pipeline is run against that filesystem (by an
//! unverified host, since the pipeline suspends), and on success the
//! filesystem is drained into an immutable snapshot for the caller. A failed
//! build yields no snapshot: the pipeline's failure is surfaced verbatim.

use vstd::prelude::*;

use crate::memory_fs::{MockFileSystem, Snapshot};

verus! {

/// One incoming build request: an optional entry-point identifier (a file
/// path or network locator). Absent or empty means "use the default fixed
/// entry point".
pub struct BuildRequest {
    /// The requested entry-point override, if any.
    pub entry: Option<String>,
}

/// The external build pipeline's completion signal: success, or failure
/// carrying the pipeline's diagnostic text.
#[derive(Debug)]
pub enum BuildOutcome {
    /// The pipeline completed and its outputs stand in the filesystem.
    Success,
    /// The pipeline reported failure; its diagnostic is carried unchanged.
    Failure(String),
}

/// A failed build, surfaced to the caller in place of a snapshot.
#[derive(Debug)]
pub enum BuildError {
    /// The pipeline's failure, propagated verbatim rather than interpreted.
    BuildFailure(String),
}

/// The fixed default entry path, used when a request names none.
pub open spec fn default_entry_path() -> Seq<char> {
    "./fixtures/index.js"@
}

/// What entry point a request resolves to: the override when it is present
/// and non-empty, else the default.
pub open spec fn spec_resolve_entry(entry: Option<Seq<char>>) -> Seq<char> {
    match entry {
        Some(e) => if e.len() == 0 {
            default_entry_path()
        } else {
            e
        },
        None => default_entry_path(),
    }
}

/// The default fixture entry point.
pub fn default_entry() -> (r: String)
    ensures
        r@ == default_entry_path(),
{
    String::from_str("./fixtures/index.js")
}

/// Resolves the effective entry point of a request: its override when that
/// is present and non-empty, else the fixed default.
pub fn resolve_entry(request: &BuildRequest) -> (r: String)
    ensures
        r@ == spec_resolve_entry(request.entry.deep_view()),
{
    match &request.entry {
        Some(e) => {
            if e.as_str().is_empty() {
                default_entry()
            } else {
                e.clone()
            }
        },
        None => default_entry(),
    }
}

/// Sets one build up: a fresh, empty filesystem owned by this invocation
/// alone, and the resolved entry point. Concurrent invocations never share an
/// instance, so builds cannot observe each other's output.
pub fn begin_build(request: &BuildRequest) -> (r: (MockFileSystem, String))
    ensures
        r.0.wf(),
        r.0.files_view() == Map::<Seq<char>, Seq<u8>>::empty(),
        r.0.dirs_view() == Set::<Seq<char>>::empty(),
        r.1@ == spec_resolve_entry(request.entry.deep_view()),
{
    (MockFileSystem::new(), resolve_entry(request))
}

/// Finishes one build. On pipeline success the filesystem is drained into a
/// snapshot holding exactly its file contents; on pipeline failure no
/// snapshot is produced — not even an empty or partial one — and the
/// pipeline's diagnostic is surfaced unchanged. Either way the filesystem
/// instance is consumed and discarded.
pub fn finish_build(outcome: BuildOutcome, fs: MockFileSystem) -> (r: Result<Snapshot, BuildError>)
    requires
        fs.wf(),
    ensures
        match r {
            Ok(s) => outcome is Success && s.wf() && s@ == fs.files_view(),
            Err(e) => outcome matches BuildOutcome::Failure(m) && e == BuildError::BuildFailure(m),
        },
{
    match outcome {
        BuildOutcome::Success => Ok(fs.into_snapshot()),
        BuildOutcome::Failure(m) => Err(BuildError::BuildFailure(m)),
    }
}

} // verus!
