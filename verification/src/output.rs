//! The rules for publishing a probe response file.
//!
//! The final response path must name a file whose parent is an existing real directory, and
//! must not exist yet: a response never replaces anything. The response is first written to a
//! uniquely named private sibling, created exclusively, then published under the final name.
//! The file-system work itself is done by the caller, which reports what it observed.
use vstd::prelude::*;

use crate::text::{decimal, decimal_string, owned};

verus! {

/// Why a response path is unsafe or unusable.
#[derive(Clone, Copy, Debug, PartialEq, Eq, Structural)]
pub enum ToolingProbeOutputTargetError {
    /// The response path does not name a file beneath a parent directory.
    MissingFileName,
    /// The response path's parent does not exist.
    MissingParent,
    /// The response path's parent is not a real directory.
    InvalidParent,
    /// The final response path is an existing symbolic link.
    ExistingSymlink,
    /// The final response path is an existing regular file.
    ExistingFile,
    /// The final response path is an existing non-regular file.
    ExistingNonRegular,
}

/// The displayed text of a target error.
pub open spec fn target_error_text(e: ToolingProbeOutputTargetError) -> Seq<char> {
    match e {
        ToolingProbeOutputTargetError::MissingFileName => "the response path has no file name"@,
        ToolingProbeOutputTargetError::MissingParent => "the response path parent does not exist"@,
        ToolingProbeOutputTargetError::InvalidParent =>
            "the response path parent is not a regular directory"@,
        ToolingProbeOutputTargetError::ExistingSymlink =>
            "the response path is an existing symbolic link"@,
        ToolingProbeOutputTargetError::ExistingFile => "the response path already exists"@,
        ToolingProbeOutputTargetError::ExistingNonRegular =>
            "the response path is an existing non-regular file"@,
    }
}

impl ToolingProbeOutputTargetError {
    /// The displayed text of this error.
    pub fn message(&self) -> (r: String)
        ensures
            r@ == target_error_text(*self),
    {
        match self {
            ToolingProbeOutputTargetError::MissingFileName => owned(
                "the response path has no file name",
            ),
            ToolingProbeOutputTargetError::MissingParent => owned(
                "the response path parent does not exist",
            ),
            ToolingProbeOutputTargetError::InvalidParent => owned(
                "the response path parent is not a regular directory",
            ),
            ToolingProbeOutputTargetError::ExistingSymlink => owned(
                "the response path is an existing symbolic link",
            ),
            ToolingProbeOutputTargetError::ExistingFile => owned("the response path already exists"),
            ToolingProbeOutputTargetError::ExistingNonRegular => owned(
                "the response path is an existing non-regular file",
            ),
        }
    }
}

/// What a metadata query (without following symbolic links) observed at a path.
#[derive(Clone, Copy, Debug, PartialEq, Eq, Structural)]
pub enum PathObservation {
    /// Nothing exists there.
    NotFound,
    /// The query failed for another reason.
    Unreadable,
    /// A symbolic link.
    Symlink,
    /// A real directory.
    Directory,
    /// A regular file.
    File,
    /// Anything else (a socket, a device, ...).
    Other,
}

/// The verdict on a response target, from whether the path names a file and what was
/// observed at its parent and at the path itself.
pub open spec fn target_verdict(
    has_file_name: bool,
    parent: PathObservation,
    target: PathObservation,
) -> Result<(), ToolingProbeOutputTargetError> {
    if !has_file_name {
        Err(ToolingProbeOutputTargetError::MissingFileName)
    } else if parent == PathObservation::NotFound {
        Err(ToolingProbeOutputTargetError::MissingParent)
    } else if parent != PathObservation::Directory {
        Err(ToolingProbeOutputTargetError::InvalidParent)
    } else {
        match target {
            PathObservation::NotFound => Ok(()),
            PathObservation::Symlink => Err(ToolingProbeOutputTargetError::ExistingSymlink),
            PathObservation::File => Err(ToolingProbeOutputTargetError::ExistingFile),
            _ => Err(ToolingProbeOutputTargetError::ExistingNonRegular),
        }
    }
}

/// Judges a response target: it needs a file name, a parent that is a real directory (not a
/// link to one), and must not exist yet; whatever exists there is never replaced.
pub fn validate_target(
    has_file_name: bool,
    parent: PathObservation,
    target: PathObservation,
) -> (r: Result<(), ToolingProbeOutputTargetError>)
    ensures
        r == target_verdict(has_file_name, parent, target),
{
    if !has_file_name {
        return Err(ToolingProbeOutputTargetError::MissingFileName);
    }
    match parent {
        PathObservation::NotFound => {
            return Err(ToolingProbeOutputTargetError::MissingParent);
        },
        PathObservation::Directory => {},
        _ => {
            return Err(ToolingProbeOutputTargetError::InvalidParent);
        },
    }
    validate_final_absent(target)
}

/// Judges the final response path alone: only an absent path is acceptable.
pub fn validate_final_absent(target: PathObservation) -> (r: Result<(), ToolingProbeOutputTargetError>)
    ensures
        r == target_verdict(true, PathObservation::Directory, target),
{
    match target {
        PathObservation::NotFound => Ok(()),
        PathObservation::Symlink => Err(ToolingProbeOutputTargetError::ExistingSymlink),
        PathObservation::File => Err(ToolingProbeOutputTargetError::ExistingFile),
        _ => Err(ToolingProbeOutputTargetError::ExistingNonRegular),
    }
}

/// A response is only ever published to an absent path.
pub proof fn law_existing_targets_are_never_replaced(
    has_file_name: bool,
    parent: PathObservation,
    target: PathObservation,
)
    requires
        target != PathObservation::NotFound,
    ensures
        target_verdict(has_file_name, parent, target) is Err,
{
}

/// How many unique temporary names are tried before giving up.
pub const TEMP_CREATE_ATTEMPTS: u16 = 128;

/// `.overseerd-tooling-probe-<process>-<sequence>-<attempt>.tmp`.
pub open spec fn temp_name_text(process: u32, sequence: u64, attempt: u16) -> Seq<char> {
    ".overseerd-tooling-probe-"@ + decimal(process as nat) + "-"@ + decimal(sequence as nat) + "-"@
        + decimal(attempt as nat) + ".tmp"@
}

/// The file name of one temporary sibling attempt, unique per process, publication and attempt.
pub fn temp_file_name(process: u32, sequence: u64, attempt: u16) -> (r: String)
    ensures
        r@ == temp_name_text(process, sequence, attempt),
{
    let mut r = owned(".overseerd-tooling-probe-");
    let p = decimal_string(process as u64);
    r.append(p.as_str());
    r.append("-");
    let s = decimal_string(sequence);
    r.append(s.as_str());
    r.append("-");
    let a = decimal_string(attempt as u64);
    r.append(a.as_str());
    r.append(".tmp");
    r
}

/// The outcome of one exclusive creation attempt.
#[derive(Clone, Copy, Debug, PartialEq, Eq, Structural)]
pub enum CreateOutcome {
    Created,
    /// The name is taken.
    AlreadyExists,
    /// Creation failed for another reason.
    Failed,
}

/// What to do after a creation attempt.
#[derive(Clone, Copy, Debug, PartialEq, Eq, Structural)]
pub enum TempStep {
    /// Keep the created file.
    Keep,
    /// Try the next attempt number.
    Retry(u16),
    /// Report the creation failure.
    Fail,
    /// Every attempt found its name taken.
    Exhausted,
}

/// After attempt `attempt` had `outcome`: keep a created file, report another failure, and
/// retry a taken name until the attempts run out.
pub open spec fn temp_step_spec(attempt: u16, outcome: CreateOutcome) -> TempStep {
    match outcome {
        CreateOutcome::Created => TempStep::Keep,
        CreateOutcome::Failed => TempStep::Fail,
        CreateOutcome::AlreadyExists => if attempt + 1 < TEMP_CREATE_ATTEMPTS {
            TempStep::Retry((attempt + 1) as u16)
        } else {
            TempStep::Exhausted
        },
    }
}

/// Decides the next step of creating the temporary sibling.
pub fn temp_step(attempt: u16, outcome: CreateOutcome) -> (r: TempStep)
    requires
        attempt < TEMP_CREATE_ATTEMPTS,
    ensures
        r == temp_step_spec(attempt, outcome),
{
    match outcome {
        CreateOutcome::Created => TempStep::Keep,
        CreateOutcome::Failed => TempStep::Fail,
        CreateOutcome::AlreadyExists => if attempt + 1 < TEMP_CREATE_ATTEMPTS {
            TempStep::Retry(attempt + 1)
        } else {
            TempStep::Exhausted
        },
    }
}

/// Retries only move forward and stay within the attempt budget.
pub proof fn law_temp_attempts_are_bounded(attempt: u16, outcome: CreateOutcome)
    requires
        attempt < TEMP_CREATE_ATTEMPTS,
    ensures
        temp_step_spec(attempt, outcome) matches TempStep::Retry(next) ==> attempt < next
            < TEMP_CREATE_ATTEMPTS,
{
}

} // verus!
