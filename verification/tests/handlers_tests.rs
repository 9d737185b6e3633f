use mycode::file_tool_specs::{create_edit_file_tool, create_read_file_tool, create_write_file_tool};
use mycode::edit::{EditMatch, EditRequest};
use mycode::handlers::{
    create_conflict_message, edit_file_decision, read_failed_message, read_file_response,
    unavailable_message, unresolved_path_message, unsupported_payload_message,
    write_file_decision, edit_target_error, is_notebook_path, mutation_approval, notebook_refusal, read_target_error,
    requested_offset, wants_no_sandbox_approval, write_approval_patch, write_success_message,
    write_target_error, AskForApproval, EditFileHandler, ExecApprovalRequirement, MetadataProbe,
    ReadFileHandler, SafetyCheck, WriteFileHandler, MAX_EDIT_FILE_BYTES,
};
use mycode::policy::{
    BLOCK_COMMERCIAL_TELEMETRY, CHECK_FOR_UPDATE_ON_STARTUP_BY_DEFAULT,
    OTEL_METRICS_ENABLED_BY_DEFAULT,
};
use mycode::protocol::ToolName;
use mycode::tool_spec::ToolSpec;
use mycode::write_plan::WritePlan;

fn file(size: u64) -> MetadataProbe {
    MetadataProbe::Found { is_directory: false, is_file: true, size, modified_at_ms: 0 }
}

#[test]
fn read_target_checks() {
    assert_eq!(read_target_error("a.txt", &file(3)), None);
    assert_eq!(
        read_target_error("a.txt", &MetadataProbe::NotFound),
        Some("file not found: `a.txt`".to_string())
    );
    assert_eq!(
        read_target_error(
            "d",
            &MetadataProbe::Found { is_directory: true, is_file: false, size: 0, modified_at_ms: 0 }
        ),
        Some("`d` is a directory, not a file; use exec (e.g. `ls`) to list a directory".to_string())
    );
    assert_eq!(
        read_target_error(
            "p",
            &MetadataProbe::Found { is_directory: false, is_file: false, size: 0, modified_at_ms: 0 }
        ),
        Some("`p` is not a regular file".to_string())
    );
    assert_eq!(
        read_target_error("x", &MetadataProbe::Failed { error: "denied".to_string() }),
        Some("unable to access `x`: denied".to_string())
    );
}

#[test]
fn edit_target_checks_enforce_the_size_limit() {
    assert_eq!(MAX_EDIT_FILE_BYTES, 16 * 1024 * 1024);
    assert_eq!(edit_target_error("a", &file(MAX_EDIT_FILE_BYTES)), None);
    assert_eq!(
        edit_target_error("a", &file(MAX_EDIT_FILE_BYTES + 1)),
        Some("`a` is too large to edit (16777217 bytes; limit 16777216 bytes)".to_string())
    );
    assert_eq!(
        edit_target_error(
            "d",
            &MetadataProbe::Found { is_directory: true, is_file: false, size: 0, modified_at_ms: 0 }
        ),
        Some("`d` is a directory, not a file".to_string())
    );
}

#[test]
fn write_creates_new_files_only() {
    assert_eq!(write_target_error("new.txt", &MetadataProbe::NotFound), None);
    assert_eq!(
        write_target_error("old.txt", &file(1)),
        Some("`old.txt` already exists. write_file creates new files only; it never overwrites. Use edit_file for a targeted change, or apply_patch for a full rewrite.".to_string())
    );
    assert_eq!(
        write_target_error(
            "d",
            &MetadataProbe::Found { is_directory: true, is_file: false, size: 0, modified_at_ms: 0 }
        ),
        Some("`d` is a directory; write_file cannot replace a directory".to_string())
    );
    assert_eq!(
        write_approval_patch("nested/new.txt", "hello\n"),
        "*** Begin Patch\n*** Add File: nested/new.txt\n+hello\n+\n*** End Patch"
    );
    assert_eq!(
        write_success_message("nested/new.txt"),
        "File created successfully at: nested/new.txt"
    );
    let plan = WritePlan { content: "hello\n".to_string() };
    assert_eq!(plan.content, "hello\n");
}

#[test]
fn notebooks_are_left_to_apply_patch() {
    assert!(is_notebook_path("a/B.IPYNB"));
    assert!(is_notebook_path(".ipynb"));
    assert!(!is_notebook_path("a.ipynb.txt"));
    assert!(!is_notebook_path("ipynb"));
    assert_eq!(
        notebook_refusal(),
        "edit_file does not support notebook (.ipynb) files; use apply_patch instead"
    );
}

#[test]
fn offsets_start_at_line_one() {
    assert_eq!(requested_offset(None), 1);
    assert_eq!(requested_offset(Some(0)), 1);
    assert_eq!(requested_offset(Some(7)), 7);
}

#[test]
fn approval_decisions() {
    assert!(!wants_no_sandbox_approval(AskForApproval::Never));
    assert!(wants_no_sandbox_approval(AskForApproval::OnRequest));
    assert!(wants_no_sandbox_approval(AskForApproval::UnlessTrusted));
    assert!(!wants_no_sandbox_approval(AskForApproval::Granular {
        allows_sandbox_approval: false
    }));
    assert_eq!(
        mutation_approval(&SafetyCheck::AutoApprove),
        Ok((true, ExecApprovalRequirement::Skip))
    );
    assert_eq!(
        mutation_approval(&SafetyCheck::AskUser),
        Ok((false, ExecApprovalRequirement::NeedsApproval))
    );
    assert_eq!(
        mutation_approval(&SafetyCheck::Reject { reason: "outside workspace".to_string() }),
        Err("file mutation rejected: outside workspace".to_string())
    );
}

#[test]
fn handlers_name_and_describe_their_tools() {
    assert_eq!(ReadFileHandler.tool_name(), ToolName::plain("read_file"));
    assert_eq!(EditFileHandler.tool_name(), ToolName::plain("edit_file"));
    assert_eq!(WriteFileHandler.tool_name(), ToolName::plain("write_file"));
    assert_eq!(ReadFileHandler.spec(), create_read_file_tool());
    assert_eq!(EditFileHandler.spec(), create_edit_file_tool());
    assert_eq!(WriteFileHandler.spec(), create_write_file_tool());
    let ToolSpec::Function(edit) = create_edit_file_tool() else {
        panic!("edit_file is a function tool");
    };
    assert_eq!(edit.name, "edit_file");
    assert!(!edit.strict);
    assert!(edit.parameters.contains("\"required\":[\"file_path\",\"old_string\",\"new_string\"]"));
}

#[test]
fn telemetry_policy_defaults() {
    assert!(BLOCK_COMMERCIAL_TELEMETRY);
    assert!(!CHECK_FOR_UPDATE_ON_STARTUP_BY_DEFAULT);
    assert!(!OTEL_METRICS_ENABLED_BY_DEFAULT);
}

#[test]
fn read_handler_returns_line_numbered_text() {
    let chunks = vec![Ok(b"alpha\nbeta\n".to_vec())];
    let output = read_file_response("sample.txt", &file(11), Some(1), Some(1), &chunks)
        .expect("read should succeed");
    assert!(output.contains("     1\u{2192}alpha"), "{output}");
    assert!(output.contains("offset=2"), "{output}");
}

#[test]
fn read_handler_reports_refusals_and_stream_failures() {
    assert_eq!(
        read_file_response("gone.txt", &MetadataProbe::NotFound, None, None, &Vec::new()),
        Err("file not found: `gone.txt`".to_string())
    );
    let chunks = vec![Ok(b"alpha\n".to_vec()), Err("connection reset".to_string())];
    assert_eq!(
        read_file_response("a.txt", &file(6), None, None, &chunks),
        Err("unable to read `a.txt`: connection reset".to_string())
    );
    assert_eq!(
        read_failed_message("a.txt", "io"),
        "unable to read `a.txt`: io"
    );
}

#[test]
fn read_handler_ignores_chunks_after_the_scanner_stops() {
    let chunks = vec![Ok(b"one\ntwo\nthree\n".to_vec()), Err("never read".to_string())];
    let output = read_file_response("a.txt", &file(14), Some(1), Some(1), &chunks)
        .expect("the scanner stopped before the failing chunk");
    assert!(output.starts_with("     1\u{2192}one"), "{output}");
}

#[test]
fn edit_handler_rewrites_and_emits_file_change() {
    let request = EditRequest {
        old_string: "beta".to_string(),
        new_string: "BETA".to_string(),
        replace_all: false,
    };
    let original = Ok("alpha\nbeta\n".to_string());
    let plan = edit_file_decision("sample.txt", "/w/sample.txt", &file(11), &original, &request)
        .expect("edit should succeed");
    assert_eq!(plan.message, "The file has been updated.");
    assert_eq!(plan.updated, "alpha\nBETA\n");
    assert_eq!(plan.match_kind, EditMatch::Exact);
    assert!(plan.unified_diff.contains("-beta"), "{}", plan.unified_diff);
    assert!(plan.unified_diff.contains("+BETA"), "{}", plan.unified_diff);
}

#[test]
fn edit_handler_refuses_notebooks_targets_and_failed_reads() {
    let request = EditRequest {
        old_string: "a".to_string(),
        new_string: "b".to_string(),
        replace_all: false,
    };
    let text = Ok("a\n".to_string());
    assert_eq!(
        edit_file_decision("n.ipynb", "/w/n.ipynb", &file(2), &text, &request),
        Err("edit_file does not support notebook (.ipynb) files; use apply_patch instead".to_string())
    );
    assert_eq!(
        edit_file_decision("x", "/w/x", &MetadataProbe::NotFound, &text, &request),
        Err("file not found: `/w/x`".to_string())
    );
    assert_eq!(
        edit_file_decision("x", "/w/x", &file(2), &Err("denied".to_string()), &request),
        Err("unable to read `/w/x`: denied".to_string())
    );
    assert_eq!(
        edit_file_decision("x", "/w/x", &file(2), &Ok("c\n".to_string()), &request),
        Err("old_string was not found in the file. Read the file and copy the exact text, including whitespace.".to_string())
    );
}

#[test]
fn write_handler_creates_and_refuses_to_overwrite() {
    let (plan, patch) = write_file_decision("nested/new.txt", &MetadataProbe::NotFound, "hello\n".to_string())
        .expect("write should succeed");
    assert_eq!(plan.content, "hello\n");
    assert_eq!(patch, "*** Begin Patch\n*** Add File: nested/new.txt\n+hello\n+\n*** End Patch");
    assert!(write_success_message("nested/new.txt").starts_with("File created successfully"));
    let error = write_file_decision("nested/new.txt", &file(6), "replaced\n".to_string())
        .expect_err("an existing file is never overwritten");
    assert!(error.contains("already exists"), "{error}");
}

#[test]
fn handler_messages() {
    assert_eq!(unsupported_payload_message("read_file"), "read_file handler received unsupported payload");
    assert_eq!(unavailable_message("write_file"), "write_file is unavailable in this session");
    assert_eq!(
        unresolved_path_message("../x", "/w", "escapes"),
        "unable to resolve `../x` against environment cwd `/w`: escapes"
    );
    assert_eq!(
        create_conflict_message("/w/a"),
        "`/w/a` already exists; write_file creates new files only"
    );
}
