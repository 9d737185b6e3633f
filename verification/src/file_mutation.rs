//! What a sandboxed file mutation records and answers, apart from the filesystem work:
//! the change it commits, the command-style output it reports, how a failure is
//! classified, and what the probe before a file creation decides.
use vstd::prelude::*;

use crate::handlers::{create_conflict_message, quoted, MetadataProbe, MetadataProbeView};

verus! {

/// A mutation of one file, addressed by its model-visible path.
#[derive(Clone, Debug, PartialEq, Eq)]
pub enum FileMutation {
    /// Replace the content of an existing file.
    Edit { path: String, old_content: String, new_content: String },
    /// Create a new file.
    Create { path: String, content: String },
}

pub enum FileMutationView {
    Edit { path: Seq<char>, old_content: Seq<char>, new_content: Seq<char> },
    Create { path: Seq<char>, content: Seq<char> },
}

impl View for FileMutation {
    type V = FileMutationView;

    open spec fn view(&self) -> FileMutationView {
        match self {
            FileMutation::Edit { path, old_content, new_content } => FileMutationView::Edit {
                path: path@,
                old_content: old_content@,
                new_content: new_content@,
            },
            FileMutation::Create { path, content } => FileMutationView::Create {
                path: path@,
                content: content@,
            },
        }
    }
}

/// How one file changed, as the committed delta records it.
#[derive(Clone, Debug, PartialEq, Eq)]
pub enum AppliedFileChange {
    Update { old_content: String, new_content: String },
    Add { content: String },
}

pub enum AppliedFileChangeView {
    Update { old_content: Seq<char>, new_content: Seq<char> },
    Add { content: Seq<char> },
}

impl View for AppliedFileChange {
    type V = AppliedFileChangeView;

    open spec fn view(&self) -> AppliedFileChangeView {
        match self {
            AppliedFileChange::Update { old_content, new_content } => AppliedFileChangeView::Update {
                old_content: old_content@,
                new_content: new_content@,
            },
            AppliedFileChange::Add { content } => AppliedFileChangeView::Add { content: content@ },
        }
    }
}

/// The change made to the file at `path`.
#[derive(Clone, Debug, PartialEq, Eq)]
pub struct AppliedChange {
    pub path: String,
    pub change: AppliedFileChange,
}

/// The changes a mutation committed, and whether they record the files exactly.
#[derive(Clone, Debug, PartialEq, Eq)]
pub struct AppliedDelta {
    pub changes: Vec<AppliedChange>,
    pub exact: bool,
}

/// The path and change that a mutation records.
pub open spec fn recorded_change(m: FileMutationView) -> (Seq<char>, AppliedFileChangeView) {
    match m {
        FileMutationView::Edit { path, old_content, new_content } => (
            path,
            AppliedFileChangeView::Update { old_content, new_content },
        ),
        FileMutationView::Create { path, content } => (path, AppliedFileChangeView::Add { content }),
    }
}

/// The delta a successful mutation commits: its one change, recorded exactly.
pub fn delta_for_mutation(mutation: &FileMutation) -> (delta: AppliedDelta)
    ensures
        delta.exact,
        delta.changes@.len() == 1,
        (delta.changes@[0].path@, delta.changes@[0].change@) == recorded_change(mutation@),
{
    let change = match mutation {
        FileMutation::Edit { path, old_content, new_content } => AppliedChange {
            path: path.clone(),
            change: AppliedFileChange::Update {
                old_content: old_content.clone(),
                new_content: new_content.clone(),
            },
        },
        FileMutation::Create { path, content } => AppliedChange {
            path: path.clone(),
            change: AppliedFileChange::Add { content: content.clone() },
        },
    };
    let mut changes: Vec<AppliedChange> = Vec::new();
    changes.push(change);
    AppliedDelta { changes, exact: true }
}

/// The command-style output a mutation reports (its duration is measured by the caller).
#[derive(Clone, Debug, PartialEq, Eq)]
pub struct MutationOutput {
    pub exit_code: i32,
    pub stdout: String,
    pub stderr: String,
    pub aggregated_output: String,
    pub timed_out: bool,
}

/// The output of a mutation that succeeded: exit code 0 and no text.
pub fn success_output() -> (output: MutationOutput)
    ensures
        output.exit_code == 0,
        output.stdout@.len() == 0,
        output.stderr@.len() == 0,
        output.aggregated_output@.len() == 0,
        !output.timed_out,
{
    MutationOutput {
        exit_code: 0,
        stdout: String::new(),
        stderr: String::new(),
        aggregated_output: String::new(),
        timed_out: false,
    }
}

/// The output of a mutation that failed with `message`: exit code 1, the message as the
/// error stream and as the whole output.
pub fn io_error_output(message: &str) -> (output: MutationOutput)
    ensures
        output.exit_code == 1,
        output.stdout@.len() == 0,
        output.stderr@ == message@,
        output.aggregated_output@ == message@,
        !output.timed_out,
{
    MutationOutput {
        exit_code: 1,
        stdout: String::new(),
        stderr: String::from_str(message),
        aggregated_output: String::from_str(message),
        timed_out: false,
    }
}

/// How a failed mutation is reported.
#[derive(Clone, Copy, Debug, PartialEq, Eq, Structural)]
pub enum MutationFailure {
    /// The sandbox denied the write; a platform sandbox also records the violation.
    SandboxDenied { record_violation: bool },
    /// Any other I/O failure, reported as it is.
    Io,
}

/// Classifies a failed mutation. Without a platform sandbox, a failure counts as a denial
/// only when a sandbox was requested and the executor's output looks denied; under a
/// platform sandbox, when its output looks denied. The two looks are the heuristics'
/// verdicts on the failure's output.
pub fn classify_mutation_failure(
    platform_sandbox: bool,
    sandbox_requested: bool,
    executor_output_denied: bool,
    platform_output_denied: bool,
) -> (failure: MutationFailure)
    ensures
        failure == (if !platform_sandbox {
            if sandbox_requested && executor_output_denied {
                MutationFailure::SandboxDenied { record_violation: false }
            } else {
                MutationFailure::Io
            }
        } else if platform_output_denied {
            MutationFailure::SandboxDenied { record_violation: true }
        } else {
            MutationFailure::Io
        }),
{
    let denied = if !platform_sandbox {
        sandbox_requested && executor_output_denied
    } else {
        platform_output_denied
    };
    if denied {
        MutationFailure::SandboxDenied { record_violation: platform_sandbox }
    } else {
        MutationFailure::Io
    }
}

/// The kind of an I/O failure that a creation reports.
#[derive(Clone, Copy, Debug, PartialEq, Eq, Structural)]
pub enum IoFailureKind {
    AlreadyExists,
    Other,
}

/// What a creation does once it has probed its target.
#[derive(Clone, Copy, Debug, PartialEq, Eq, Structural)]
pub enum CreateNext {
    /// Create the parent directory (recursively), then write the file.
    CreateParentThenWrite,
    /// Write the file.
    Write,
}

/// What the probe before a creation decides: a present target fails as already
/// existing, a failed probe fails with its error, and a missing one goes on to the write,
/// creating the parent directory first when the path has one.
pub open spec fn create_after_probe_spec(path: Seq<char>, probe: MetadataProbeView, has_parent: bool) -> Result<
    CreateNext,
    (IoFailureKind, Seq<char>),
> {
    match probe {
        MetadataProbeView::Found { .. } => Err(
            (
                IoFailureKind::AlreadyExists,
                quoted(path, " already exists; write_file creates new files only"@),
            ),
        ),
        MetadataProbeView::NotFound => Ok(
            if has_parent {
                CreateNext::CreateParentThenWrite
            } else {
                CreateNext::Write
            },
        ),
        MetadataProbeView::Failed { error } => Err((IoFailureKind::Other, error)),
    }
}

/// The creation's decision after probing its target (see `create_after_probe_spec`).
pub fn create_after_probe(path: &str, probe: &MetadataProbe, has_parent: bool) -> (next: Result<
    CreateNext,
    (IoFailureKind, String),
>)
    ensures
        match (next, create_after_probe_spec(path@, probe@, has_parent)) {
            (Ok(a), Ok(b)) => a == b,
            (Err((k, m)), Err((l, n))) => k == l && m@ == n,
            _ => false,
        },
{
    match probe {
        MetadataProbe::Found { .. } => Err((IoFailureKind::AlreadyExists, create_conflict_message(path))),
        MetadataProbe::NotFound => Ok(
            if has_parent {
                CreateNext::CreateParentThenWrite
            } else {
                CreateNext::Write
            },
        ),
        MetadataProbe::Failed { error } => Err((IoFailureKind::Other, error.clone())),
    }
}

} // verus!
