use overseerd_tooling::output::{
    temp_file_name, temp_step, validate_final_absent, validate_target, CreateOutcome,
    PathObservation, TempStep, ToolingProbeOutputTargetError, TEMP_CREATE_ATTEMPTS,
};

#[test]
fn missing_parent_is_rejected_without_creating_directories() {
    assert_eq!(
        validate_target(true, PathObservation::NotFound, PathObservation::NotFound),
        Err(ToolingProbeOutputTargetError::MissingParent)
    );
}

#[test]
fn existing_targets_are_never_replaced() {
    let dir = PathObservation::Directory;
    assert_eq!(validate_target(true, dir, PathObservation::NotFound), Ok(()));
    assert_eq!(
        validate_target(true, dir, PathObservation::File),
        Err(ToolingProbeOutputTargetError::ExistingFile)
    );
    assert_eq!(
        validate_target(true, dir, PathObservation::Symlink),
        Err(ToolingProbeOutputTargetError::ExistingSymlink)
    );
    assert_eq!(
        validate_final_absent(PathObservation::Directory),
        Err(ToolingProbeOutputTargetError::ExistingNonRegular)
    );
    assert_eq!(
        validate_final_absent(PathObservation::Unreadable),
        Err(ToolingProbeOutputTargetError::ExistingNonRegular)
    );
}

#[test]
fn parents_must_be_real_directories() {
    assert_eq!(
        validate_target(false, PathObservation::Directory, PathObservation::NotFound),
        Err(ToolingProbeOutputTargetError::MissingFileName)
    );
    assert_eq!(
        validate_target(true, PathObservation::Symlink, PathObservation::NotFound),
        Err(ToolingProbeOutputTargetError::InvalidParent)
    );
    assert_eq!(
        validate_target(true, PathObservation::Unreadable, PathObservation::NotFound),
        Err(ToolingProbeOutputTargetError::InvalidParent)
    );
}

#[test]
fn target_errors_have_fixed_messages() {
    assert_eq!(
        ToolingProbeOutputTargetError::ExistingFile.message(),
        "the response path already exists"
    );
    assert_eq!(
        ToolingProbeOutputTargetError::InvalidParent.message(),
        "the response path parent is not a regular directory"
    );
}

#[test]
fn temporary_names_are_unique_per_attempt() {
    assert_eq!(
        temp_file_name(4242, 7, 3),
        ".overseerd-tooling-probe-4242-7-3.tmp"
    );
}

#[test]
fn temporary_creation_retries_taken_names_until_exhausted() {
    assert_eq!(temp_step(0, CreateOutcome::Created), TempStep::Keep);
    assert_eq!(temp_step(0, CreateOutcome::AlreadyExists), TempStep::Retry(1));
    assert_eq!(temp_step(5, CreateOutcome::Failed), TempStep::Fail);
    assert_eq!(
        temp_step(TEMP_CREATE_ATTEMPTS - 1, CreateOutcome::AlreadyExists),
        TempStep::Exhausted
    );
}
