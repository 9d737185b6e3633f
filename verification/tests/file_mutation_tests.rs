use mycode::file_mutation::{
    classify_mutation_failure, create_after_probe, delta_for_mutation, io_error_output,
    success_output, AppliedChange, AppliedFileChange, CreateNext, FileMutation, IoFailureKind,
    MutationFailure,
};
use mycode::handlers::MetadataProbe;

#[test]
fn edit_mutation_commits_an_exact_update() {
    let delta = delta_for_mutation(&FileMutation::Edit {
        path: "/w/a.txt".to_string(),
        old_content: "old\n".to_string(),
        new_content: "new\n".to_string(),
    });
    assert!(delta.exact);
    assert_eq!(
        delta.changes,
        vec![AppliedChange {
            path: "/w/a.txt".to_string(),
            change: AppliedFileChange::Update {
                old_content: "old\n".to_string(),
                new_content: "new\n".to_string(),
            },
        }]
    );
}

#[test]
fn create_mutation_commits_an_exact_addition() {
    let delta = delta_for_mutation(&FileMutation::Create {
        path: "/w/new.txt".to_string(),
        content: "hello".to_string(),
    });
    assert!(delta.exact);
    assert_eq!(
        delta.changes,
        vec![AppliedChange {
            path: "/w/new.txt".to_string(),
            change: AppliedFileChange::Add { content: "hello".to_string() },
        }]
    );
}

#[test]
fn outputs_carry_exit_codes_and_the_error_text() {
    let ok = success_output();
    assert_eq!(ok.exit_code, 0);
    assert_eq!(ok.stderr, "");
    assert_eq!(ok.aggregated_output, "");
    assert!(!ok.timed_out);
    let failed = io_error_output("permission denied");
    assert_eq!(failed.exit_code, 1);
    assert_eq!(failed.stdout, "");
    assert_eq!(failed.stderr, "permission denied");
    assert_eq!(failed.aggregated_output, "permission denied");
}

#[test]
fn failures_are_classified_by_the_sandbox_in_force() {
    assert_eq!(
        classify_mutation_failure(false, true, true, false),
        MutationFailure::SandboxDenied { record_violation: false }
    );
    assert_eq!(classify_mutation_failure(false, false, true, true), MutationFailure::Io);
    assert_eq!(classify_mutation_failure(false, true, false, true), MutationFailure::Io);
    assert_eq!(
        classify_mutation_failure(true, true, false, true),
        MutationFailure::SandboxDenied { record_violation: true }
    );
    assert_eq!(classify_mutation_failure(true, true, true, false), MutationFailure::Io);
}

#[test]
fn creation_probe_refuses_present_targets_and_creates_parents() {
    let found = MetadataProbe::Found { is_directory: false, is_file: true, size: 3, modified_at_ms: 0 };
    assert_eq!(
        create_after_probe("/w/a.txt", &found, true),
        Err((
            IoFailureKind::AlreadyExists,
            "`/w/a.txt` already exists; write_file creates new files only".to_string()
        ))
    );
    assert_eq!(
        create_after_probe("/w/a.txt", &MetadataProbe::NotFound, true),
        Ok(CreateNext::CreateParentThenWrite)
    );
    assert_eq!(create_after_probe("a.txt", &MetadataProbe::NotFound, false), Ok(CreateNext::Write));
    assert_eq!(
        create_after_probe("/w/a.txt", &MetadataProbe::Failed { error: "io".to_string() }, true),
        Err((IoFailureKind::Other, "io".to_string()))
    );
}
