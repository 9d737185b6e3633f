//! The decisions of the `read_file`, `edit_file` and `write_file` tool handlers that do
//! not touch the filesystem: which target the tools accept, what they answer the model,
//! and what they ask the user to approve. The caller probes the filesystem and performs
//! the writes.
use vstd::prelude::*;

use crate::edit::{edit_spec, edit_supported, plan_agrees, plan_edit, EditPlan, EditRequest};
use crate::protocol::{ToolName, ToolNameView};
use crate::write_plan::WritePlan;
use crate::read::{
    effective_max_lines, effective_offset, feed_spec, finish_spec, initial_scan,
    render_output_text, render_read_output, ReadScanner, ScanLimits, ScanView, MAX_LINE_BYTES,
    MAX_OUTPUT_BYTES,
};
use crate::text::{decimal, push_decimal};
use crate::tool_spec::ToolSpec;

verus! {

/// Largest file, in bytes, that `edit_file` rewrites.
pub const MAX_EDIT_FILE_BYTES: u64 = 16 * 1024 * 1024;

/// What probing the target path found.
#[derive(Clone, Debug, PartialEq, Eq)]
pub enum MetadataProbe {
    Found { is_directory: bool, is_file: bool, size: u64, modified_at_ms: i64 },
    NotFound,
    /// Any other failure, with its description.
    Failed { error: String },
}

pub enum MetadataProbeView {
    Found { is_directory: bool, is_file: bool, size: u64, modified_at_ms: i64 },
    NotFound,
    Failed { error: Seq<char> },
}

impl View for MetadataProbe {
    type V = MetadataProbeView;

    open spec fn view(&self) -> MetadataProbeView {
        match self {
            MetadataProbe::Found { is_directory, is_file, size, modified_at_ms } =>
                MetadataProbeView::Found {
                is_directory: *is_directory,
                is_file: *is_file,
                size: *size,
                modified_at_ms: *modified_at_ms,
            },
            MetadataProbe::NotFound => MetadataProbeView::NotFound,
            MetadataProbe::Failed { error } => MetadataProbeView::Failed { error: error@ },
        }
    }
}

/// `` `path` `` followed by `rest`.
pub open spec fn quoted(path: Seq<char>, rest: Seq<char>) -> Seq<char> {
    "`"@ + path + "`"@ + rest
}

pub open spec fn not_found_text(path: Seq<char>) -> Seq<char> {
    "file not found: "@ + quoted(path, seq![])
}

pub open spec fn access_failed_text(path: Seq<char>, error: Seq<char>) -> Seq<char> {
    "unable to access "@ + quoted(path, ": "@ + error)
}

/// Why `read_file` refuses the probed target, if it does.
pub open spec fn read_target_error_spec(path: Seq<char>, probe: MetadataProbeView) -> Option<Seq<char>> {
    match probe {
        MetadataProbeView::NotFound => Some(not_found_text(path)),
        MetadataProbeView::Failed { error } => Some(access_failed_text(path, error)),
        MetadataProbeView::Found { is_directory, is_file, .. } => if is_directory {
            Some(
                quoted(
                    path,
                    " is a directory, not a file; use exec (e.g. `ls`) to list a directory"@,
                ),
            )
        } else if !is_file {
            Some(quoted(path, " is not a regular file"@))
        } else {
            None
        },
    }
}

/// Why `edit_file` refuses the probed target, if it does.
pub open spec fn edit_target_error_spec(path: Seq<char>, probe: MetadataProbeView) -> Option<Seq<char>> {
    match probe {
        MetadataProbeView::NotFound => Some(not_found_text(path)),
        MetadataProbeView::Failed { error } => Some(access_failed_text(path, error)),
        MetadataProbeView::Found { is_directory, is_file, size, .. } => if is_directory {
            Some(quoted(path, " is a directory, not a file"@))
        } else if !is_file {
            Some(quoted(path, " is not a regular file"@))
        } else if size > MAX_EDIT_FILE_BYTES {
            Some(
                quoted(
                    path,
                    " is too large to edit ("@ + decimal(size as nat) + " bytes; limit "@ + decimal(
                        MAX_EDIT_FILE_BYTES as nat,
                    ) + " bytes)"@,
                ),
            )
        } else {
            None
        },
    }
}

/// Why `write_file` refuses the probed target, if it does: it only creates new files.
pub open spec fn write_target_error_spec(path: Seq<char>, probe: MetadataProbeView) -> Option<Seq<char>> {
    match probe {
        MetadataProbeView::NotFound => None,
        MetadataProbeView::Failed { error } => Some(access_failed_text(path, error)),
        MetadataProbeView::Found { is_directory, .. } => if is_directory {
            Some(quoted(path, " is a directory; write_file cannot replace a directory"@))
        } else {
            Some(
                quoted(
                    path,
                    " already exists. write_file creates new files only; it never overwrites. Use edit_file for a targeted change, or apply_patch for a full rewrite."@,
                ),
            )
        },
    }
}

fn push_quoted(out: &mut String, path: &str)
    ensures
        final(out)@ == old(out)@ + "`"@ + path@ + "`"@,
{
    out.append("`");
    out.append(path);
    out.append("`");
}

fn access_failed_message(path: &str, error: &str) -> (m: String)
    ensures
        m@ == access_failed_text(path@, error@),
{
    let mut m = String::from_str("unable to access ");
    push_quoted(&mut m, path);
    m.append(": ");
    m.append(error);
    assert(m@ =~= access_failed_text(path@, error@));
    m
}

fn not_found_message(path: &str) -> (m: String)
    ensures
        m@ == not_found_text(path@),
{
    let mut m = String::from_str("file not found: ");
    push_quoted(&mut m, path);
    assert(m@ =~= not_found_text(path@));
    m
}

fn quoted_message(path: &str, rest: &str) -> (m: String)
    ensures
        m@ == quoted(path@, rest@),
{
    let mut m = String::new();
    push_quoted(&mut m, path);
    m.append(rest);
    assert(m@ =~= quoted(path@, rest@));
    m
}

/// Why `read_file` refuses the probed target, if it does.
pub fn read_target_error(path: &str, probe: &MetadataProbe) -> (error: Option<String>)
    ensures
        match read_target_error_spec(path@, probe@) {
            Some(m) => error matches Some(e) && e@ == m,
            None => error is None,
        },
{
    match probe {
        MetadataProbe::NotFound => Some(not_found_message(path)),
        MetadataProbe::Failed { error } => Some(access_failed_message(path, error.as_str())),
        MetadataProbe::Found { is_directory, is_file, .. } => {
            if *is_directory {
                Some(
                    quoted_message(
                        path,
                        " is a directory, not a file; use exec (e.g. `ls`) to list a directory",
                    ),
                )
            } else if !*is_file {
                Some(quoted_message(path, " is not a regular file"))
            } else {
                None
            }
        },
    }
}

/// Why `edit_file` refuses the probed target, if it does.
pub fn edit_target_error(path: &str, probe: &MetadataProbe) -> (error: Option<String>)
    ensures
        match edit_target_error_spec(path@, probe@) {
            Some(m) => error matches Some(e) && e@ == m,
            None => error is None,
        },
{
    match probe {
        MetadataProbe::NotFound => Some(not_found_message(path)),
        MetadataProbe::Failed { error } => Some(access_failed_message(path, error.as_str())),
        MetadataProbe::Found { is_directory, is_file, size, .. } => {
            if *is_directory {
                Some(quoted_message(path, " is a directory, not a file"))
            } else if !*is_file {
                Some(quoted_message(path, " is not a regular file"))
            } else if *size > MAX_EDIT_FILE_BYTES {
                let mut m = String::new();
                push_quoted(&mut m, path);
                m.append(" is too large to edit (");
                push_decimal(&mut m, *size);
                m.append(" bytes; limit ");
                push_decimal(&mut m, MAX_EDIT_FILE_BYTES);
                m.append(" bytes)");
                let ghost spec = edit_target_error_spec(path@, probe@);
                assert(m@ =~= spec->Some_0);
                Some(m)
            } else {
                None
            }
        },
    }
}

/// Why `write_file` refuses the probed target, if it does.
pub fn write_target_error(path: &str, probe: &MetadataProbe) -> (error: Option<String>)
    ensures
        match write_target_error_spec(path@, probe@) {
            Some(m) => error matches Some(e) && e@ == m,
            None => error is None,
        },
{
    match probe {
        MetadataProbe::NotFound => None,
        MetadataProbe::Failed { error } => Some(access_failed_message(path, error.as_str())),
        MetadataProbe::Found { is_directory, .. } => {
            if *is_directory {
                Some(quoted_message(path, " is a directory; write_file cannot replace a directory"))
            } else {
                Some(
                    quoted_message(
                        path,
                        " already exists. write_file creates new files only; it never overwrites. Use edit_file for a targeted change, or apply_patch for a full rewrite.",
                    ),
                )
            }
        },
    }
}

/// The first line to read: the requested one, at least line 1.
pub fn requested_offset(offset: Option<usize>) -> (line: usize)
    ensures
        line == match offset {
            Some(o) => if o >= 1 {
                o
            } else {
                1
            },
            None => 1,
        },
{
    match offset {
        Some(o) => if o >= 1 {
            o
        } else {
            1
        },
        None => 1,
    }
}

/// ASCII upper-case letters mapped to lower case, other characters kept.
pub open spec fn ascii_lower(c: char) -> char {
    if 'A' <= c <= 'Z' {
        ((c as u32) + 32) as char
    } else {
        c
    }
}

/// Whether the path names a notebook, which `edit_file` leaves to `apply_patch`: it ends
/// with `.ipynb`, in any ASCII case.
pub open spec fn is_notebook_spec(path: Seq<char>) -> bool {
    let suffix = ".ipynb"@;
    path.len() >= suffix.len() && path.skip(path.len() - suffix.len()).map_values(
        |c: char| ascii_lower(c),
    ) == suffix
}

/// Whether the path names a notebook (see `is_notebook_spec`).
pub fn is_notebook_path(path: &str) -> (notebook: bool)
    ensures
        notebook == is_notebook_spec(path@),
{
    let chars = crate::text::chars_of(path);
    let suffix = crate::text::chars_of(".ipynb");
    proof {
        reveal_strlit(".ipynb");
    }
    if chars.len() < suffix.len() {
        return false;
    }
    let start = chars.len() - suffix.len();
    let ghost tail = chars@.skip(start as int).map_values(|c: char| ascii_lower(c));
    let mut k: usize = 0;
    let n = chars.len();
    while k < suffix.len()
        invariant
            n == chars@.len(),
            chars@ == path@,
            suffix@ == ".ipynb"@,
            start + suffix@.len() == chars@.len(),
            tail == chars@.skip(start as int).map_values(|c: char| ascii_lower(c)),
            k <= suffix@.len(),
            forall|j: int| 0 <= j < k ==> tail[j] == suffix@[j],
        decreases suffix@.len() - k,
    {
        let c = chars[start + k];
        let lower = if 'A' <= c && c <= 'Z' {
            ((c as u32) + 32) as u8 as char
        } else {
            c
        };
        assert(lower == ascii_lower(c)) by {
            if 'A' <= c && c <= 'Z' {
                assert(((c as u32) + 32) < 128);
            }
        }
        if lower != suffix[k] {
            assert(tail[k as int] != suffix@[k as int]);
            return false;
        }
        k = k + 1;
    }
    assert(tail =~= suffix@);
    true
}

/// The text `edit_file` answers for a notebook.
pub fn notebook_refusal() -> (m: String)
    ensures
        m@ == "edit_file does not support notebook (.ipynb) files; use apply_patch instead"@,
{
    String::from_str("edit_file does not support notebook (.ipynb) files; use apply_patch instead")
}

/// The content of a new file as the lines of an added-file patch: a `+` before each line.
pub open spec fn plus_lines(content: Seq<char>) -> Seq<char>
    decreases content.len(),
{
    if content.len() == 0 {
        seq![]
    } else {
        plus_lines(content.drop_last()) + if content.last() == '\n' {
            seq!['\n', '+']
        } else {
            seq![content.last()]
        }
    }
}

pub open spec fn write_approval_patch_spec(path: Seq<char>, content: Seq<char>) -> Seq<char> {
    "*** Begin Patch\n*** Add File: "@ + path + "\n+"@ + plus_lines(content) + "\n*** End Patch"@
}

/// The patch shown to the user to approve creating `path` with `content`.
pub fn write_approval_patch(path: &str, content: &str) -> (patch: String)
    ensures
        patch@ == write_approval_patch_spec(path@, content@),
{
    let mut patch = String::from_str("*** Begin Patch\n*** Add File: ");
    patch.append(path);
    patch.append("\n+");
    let chars = crate::text::chars_of(content);
    let ghost start = patch@;
    let mut body: Vec<char> = Vec::new();
    let mut i: usize = 0;
    assert(chars@.take(0) =~= Seq::<char>::empty());
    while i < chars.len()
        invariant
            i <= chars@.len(),
            body@ == plus_lines(chars@.take(i as int)),
        decreases chars@.len() - i,
    {
        assert(chars@.take(i + 1).drop_last() =~= chars@.take(i as int));
        assert(chars@.take(i + 1).last() == chars@[i as int]);
        let ghost before = body@;
        if chars[i] == '\n' {
            body.push('\n');
            body.push('+');
            assert(body@ =~= before + seq!['\n', '+']);
        } else {
            body.push(chars[i]);
            assert(body@ =~= before + seq![chars@[i as int]]);
        }
        i = i + 1;
    }
    assert(chars@.take(chars@.len() as int) =~= chars@);
    let text = crate::text::string_from_chars(body.as_slice());
    patch.append(text.as_str());
    patch.append("\n*** End Patch");
    assert(patch@ =~= write_approval_patch_spec(path@, content@));
    patch
}

/// What `write_file` answers once the file is created.
pub fn write_success_message(path: &str) -> (m: String)
    ensures
        m@ == "File created successfully at: "@ + path@,
{
    let mut m = String::from_str("File created successfully at: ");
    m.append(path);
    m
}

/// How the user lets tools run: the approval policy in force.
#[derive(Clone, Copy, Debug, PartialEq, Eq, Structural)]
pub enum AskForApproval {
    Never,
    /// A granular policy; whether it lets the user approve running without the sandbox.
    Granular { allows_sandbox_approval: bool },
    OnRequest,
    UnlessTrusted,
}

/// Whether a file mutation that the sandbox blocked may ask the user to run unsandboxed.
pub fn wants_no_sandbox_approval(policy: AskForApproval) -> (wants: bool)
    ensures
        wants == match policy {
            AskForApproval::Never => false,
            AskForApproval::Granular { allows_sandbox_approval } => allows_sandbox_approval,
            AskForApproval::OnRequest => true,
            AskForApproval::UnlessTrusted => true,
        },
{
    match policy {
        AskForApproval::Never => false,
        AskForApproval::Granular { allows_sandbox_approval } => allows_sandbox_approval,
        AskForApproval::OnRequest => true,
        AskForApproval::UnlessTrusted => true,
    }
}

/// The verdict of the safety assessment of a file mutation.
#[derive(Clone, Debug, PartialEq, Eq)]
pub enum SafetyCheck {
    AutoApprove,
    AskUser,
    Reject { reason: String },
}

/// Whether a mutation needs the user's approval before it runs.
#[derive(Clone, Copy, Debug, PartialEq, Eq, Structural)]
pub enum ExecApprovalRequirement {
    /// Run without asking, inside the sandbox.
    Skip,
    NeedsApproval,
}

/// How a safety verdict is acted on: whether the mutation counts as approved, and what
/// approval it needs; a rejection is answered to the model.
pub fn mutation_approval(check: &SafetyCheck) -> (r: Result<(bool, ExecApprovalRequirement), String>)
    ensures
        match check {
            SafetyCheck::AutoApprove => r == Ok::<(bool, ExecApprovalRequirement), String>(
                (true, ExecApprovalRequirement::Skip),
            ),
            SafetyCheck::AskUser => r == Ok::<(bool, ExecApprovalRequirement), String>(
                (false, ExecApprovalRequirement::NeedsApproval),
            ),
            SafetyCheck::Reject { reason } => r matches Err(m) && m@ == "file mutation rejected: "@
                + reason@,
        },
{
    match check {
        SafetyCheck::AutoApprove => Ok((true, ExecApprovalRequirement::Skip)),
        SafetyCheck::AskUser => Ok((false, ExecApprovalRequirement::NeedsApproval)),
        SafetyCheck::Reject { reason } => {
            let mut m = String::from_str("file mutation rejected: ");
            m.append(reason.as_str());
            Err(m)
        },
    }
}

/// Handles `read_file` calls.
#[derive(Clone, Copy, Debug, Default, PartialEq, Eq)]
pub struct ReadFileHandler;

/// Handles `edit_file` calls.
#[derive(Clone, Copy, Debug, Default, PartialEq, Eq)]
pub struct EditFileHandler;

/// Handles `write_file` calls.
#[derive(Clone, Copy, Debug, Default, PartialEq, Eq)]
pub struct WriteFileHandler;

impl ReadFileHandler {
    pub fn tool_name(&self) -> (t: ToolName)
        ensures
            t@ == (ToolNameView { name: "read_file"@, namespace: None }),
    {
        ToolName::plain("read_file")
    }

    pub fn spec(&self) -> (s: ToolSpec)
        ensures
            s@ == crate::file_tool_specs::read_file_tool_spec(),
    {
        crate::file_tool_specs::create_read_file_tool()
    }
}

impl EditFileHandler {
    pub fn tool_name(&self) -> (t: ToolName)
        ensures
            t@ == (ToolNameView { name: "edit_file"@, namespace: None }),
    {
        ToolName::plain("edit_file")
    }

    pub fn spec(&self) -> (s: ToolSpec)
        ensures
            s@ == crate::file_tool_specs::edit_file_tool_spec(),
    {
        crate::file_tool_specs::create_edit_file_tool()
    }
}

impl WriteFileHandler {
    pub fn tool_name(&self) -> (t: ToolName)
        ensures
            t@ == (ToolNameView { name: "write_file"@, namespace: None }),
    {
        ToolName::plain("write_file")
    }

    pub fn spec(&self) -> (s: ToolSpec)
        ensures
            s@ == crate::file_tool_specs::write_file_tool_spec(),
    {
        crate::file_tool_specs::create_write_file_tool()
    }
}


pub open spec fn read_failed_text(path: Seq<char>, error: Seq<char>) -> Seq<char> {
    "unable to read "@ + quoted(path, ": "@ + error)
}

/// The text a tool answers when the file cannot be read.
pub fn read_failed_message(path: &str, error: &str) -> (m: String)
    ensures
        m@ == read_failed_text(path@, error@),
{
    let mut m = String::from_str("unable to read ");
    push_quoted(&mut m, path);
    m.append(": ");
    m.append(error);
    assert(m@ =~= read_failed_text(path@, error@));
    m
}

/// The text a tool answers when it was called with anything but function arguments.
pub fn unsupported_payload_message(tool: &str) -> (m: String)
    ensures
        m@ == tool@ + " handler received unsupported payload"@,
{
    let mut m = String::from_str(tool);
    m.append(" handler received unsupported payload");
    m
}

/// The text a tool answers when the session has no environment to run it in.
pub fn unavailable_message(tool: &str) -> (m: String)
    ensures
        m@ == tool@ + " is unavailable in this session"@,
{
    let mut m = String::from_str(tool);
    m.append(" is unavailable in this session");
    m
}

/// The text a tool answers when the path cannot be resolved against the working directory.
pub fn unresolved_path_message(file_path: &str, cwd: &str, error: &str) -> (m: String)
    ensures
        m@ == "unable to resolve "@ + quoted(file_path@, " against environment cwd "@ + quoted(
            cwd@,
            ": "@ + error@,
        )),
{
    let mut m = String::from_str("unable to resolve ");
    push_quoted(&mut m, file_path);
    m.append(" against environment cwd ");
    push_quoted(&mut m, cwd);
    m.append(": ");
    m.append(error);
    assert(m@ =~= "unable to resolve "@ + quoted(file_path@, " against environment cwd "@ + quoted(
        cwd@,
        ": "@ + error@,
    )));
    m
}

/// What the filesystem reports when a new file appears before it is written.
pub fn create_conflict_message(path: &str) -> (m: String)
    ensures
        m@ == quoted(path@, " already exists; write_file creates new files only"@),
{
    quoted_message(path, " already exists; write_file creates new files only")
}

/// The bytes the read stream delivered, chunk by chunk, or the failures it reported.
pub open spec fn chunks_view(chunks: Seq<Result<Vec<u8>, String>>) -> Seq<Result<Seq<u8>, Seq<char>>> {
    chunks.map_values(
        |c: Result<Vec<u8>, String>|
            match c {
                Ok(b) => Ok(b@),
                Err(e) => Err(e@),
            },
    )
}

/// Reads chunks into the scanner until it stops or the chunks run out; a failed chunk
/// or a scanner error ends the read with the text the model is told.
pub open spec fn read_chunks_spec(
    s: ScanView,
    chunks: Seq<Result<Seq<u8>, Seq<char>>>,
    path: Seq<char>,
) -> Result<ScanView, Seq<char>>
    decreases chunks.len(),
{
    if s.stop is Some || chunks.len() == 0 {
        Ok(s)
    } else {
        match chunks[0] {
            Err(e) => Err(read_failed_text(path, e)),
            Ok(bytes) => {
                let (s2, r) = feed_spec(s, bytes);
                match r {
                    Err(re) => Err(re.model_message_text(path)),
                    Ok(_) => read_chunks_spec(s2, chunks.drop_first(), path),
                }
            },
        }
    }
}

pub open spec fn total_bytes(chunks: Seq<Result<Seq<u8>, Seq<char>>>) -> nat
    decreases chunks.len(),
{
    if chunks.len() == 0 {
        0
    } else {
        total_bytes(chunks.drop_first()) + match chunks[0] {
            Ok(b) => b.len(),
            Err(_) => 0,
        }
    }
}

/// The scan limits of a `read_file` call.
pub open spec fn read_limits(offset: Option<usize>, limit: Option<usize>) -> ScanLimits {
    ScanLimits {
        first_line: (effective_offset(offset) - 1) as nat,
        max_lines: effective_max_lines(limit),
        max_line_bytes: MAX_LINE_BYTES as nat,
        max_output_bytes: MAX_OUTPUT_BYTES as nat,
    }
}

/// What `read_file` answers: the refusal of the target, or the read's failure, or the
/// rendered lines of the file.
pub open spec fn read_response_spec(
    path: Seq<char>,
    probe: MetadataProbeView,
    offset: Option<usize>,
    limit: Option<usize>,
    chunks: Seq<Result<Seq<u8>, Seq<char>>>,
) -> Result<Seq<char>, Seq<char>> {
    match read_target_error_spec(path, probe) {
        Some(m) => Err(m),
        None => match read_chunks_spec(initial_scan(read_limits(offset, limit)), chunks, path) {
            Err(m) => Err(m),
            Ok(s) => match finish_spec(s) {
                Err(e) => Err(e.model_message_text(path)),
                Ok(outcome) => Ok(
                    render_output_text(
                        outcome,
                        match probe {
                            MetadataProbeView::Found { modified_at_ms, .. } => modified_at_ms as int,
                            _ => 0,
                        },
                        effective_offset(offset),
                    ),
                ),
            },
        },
    }
}

/// The answer of `read_file` for a probed target and the chunks its read stream
/// delivered (a failure to open the stream is its first chunk). Chunks after the scanner
/// stops are not looked at.
pub fn read_file_response(
    path: &str,
    probe: &MetadataProbe,
    offset: Option<usize>,
    limit: Option<usize>,
    chunks: &Vec<Result<Vec<u8>, String>>,
) -> (response: Result<String, String>)
    requires
        total_bytes(chunks_view(chunks@)) + 25 <= usize::MAX,
    ensures
        match read_response_spec(path@, probe@, offset, limit, chunks_view(chunks@)) {
            Ok(t) => response matches Ok(r) && r@ == t,
            Err(m) => response matches Err(r) && r@ == m,
        },
{
    let requested_offset = requested_offset(offset);
    if let Some(message) = read_target_error(path, probe) {
        return Err(message);
    }
    let modified_at_ms = match probe {
        MetadataProbe::Found { modified_at_ms, .. } => *modified_at_ms,
        _ => 0,
    };
    let mut scanner = ReadScanner::new(offset, limit);
    let ghost cv = chunks_view(chunks@);
    let ghost s0 = scanner@;
    let mut k: usize = 0;
    assert(cv.skip(0) =~= cv);
    while k < chunks.len() && !scanner.is_stopped()
        invariant
            cv == chunks_view(chunks@),
            k <= chunks@.len(),
            scanner.wf(),
            read_target_error_spec(path@, probe@) is None,
            s0 == initial_scan(read_limits(offset, limit)),
            read_chunks_spec(s0, cv, path@) == read_chunks_spec(scanner@, cv.skip(k as int), path@),
            scanner@.fed + total_bytes(cv.skip(k as int)) + 25 <= usize::MAX,
        decreases chunks@.len() - k,
    {
        assert(cv.skip(k as int)[0] == cv[k as int]);
        assert(cv.skip(k as int).drop_first() =~= cv.skip(k + 1));
        match &chunks[k] {
            Err(error) => {
                assert(cv[k as int] == Err::<Seq<u8>, Seq<char>>(error@));
                return Err(read_failed_message(path, error.as_str()));
            },
            Ok(bytes) => {
                assert(cv[k as int] == Ok::<Seq<u8>, Seq<char>>(bytes@));
                match scanner.feed(bytes.as_slice()) {
                    Err(e) => {
                        return Err(e.model_message(path));
                    },
                    Ok(()) => {},
                }
            },
        }
        k = k + 1;
    }
    match scanner.finish() {
        Err(e) => Err(e.model_message(path)),
        Ok(outcome) => Ok(render_read_output(&outcome, modified_at_ms, requested_offset)),
    }
}


/// What `edit_file` decides for a request: the refusal of a notebook or of the target,
/// the failure to read the file, the edit's own error, or the planned edit.
pub open spec fn edit_decision_spec(
    file_path: Seq<char>,
    path: Seq<char>,
    probe: MetadataProbeView,
    original: Result<Seq<char>, Seq<char>>,
    request_old: Seq<char>,
    request_new: Seq<char>,
    replace_all: bool,
) -> Option<Seq<char>> {
    if is_notebook_spec(file_path) {
        Some("edit_file does not support notebook (.ipynb) files; use apply_patch instead"@)
    } else {
        match edit_target_error_spec(path, probe) {
            Some(m) => Some(m),
            None => match original {
                Err(e) => Some(read_failed_text(path, e)),
                Ok(text) => match edit_spec(text, request_old, request_new, replace_all) {
                    Err(e) => Some(e.message_text()),
                    Ok(_) => None,
                },
            },
        }
    }
}

/// Decides an `edit_file` call from the path the model gave (`file_path`), the path it is
/// shown as (`path`), the probe of the target, and the file's text or the failure to read
/// it: either the text the model is told, or the planned edit.
pub fn edit_file_decision(
    file_path: &str,
    path: &str,
    probe: &MetadataProbe,
    original: &Result<String, String>,
    request: &EditRequest,
) -> (decision: Result<EditPlan, String>)
    requires
        request.replace_all ==> (original matches Ok(text) ==> edit_supported(
            text@,
            request.old_string@,
            request.new_string@,
            request.replace_all,
        )),
    ensures
        match edit_decision_spec(
            file_path@,
            path@,
            probe@,
            match original {
                Ok(t) => Ok(t@),
                Err(e) => Err(e@),
            },
            request.old_string@,
            request.new_string@,
            request.replace_all,
        ) {
            Some(m) => decision matches Err(r) && r@ == m,
            None => decision matches Ok(plan) && original matches Ok(text) && plan_agrees(
                text@,
                Ok(plan),
                edit_spec(text@, request.old_string@, request.new_string@, request.replace_all),
            ),
        },
{
    if is_notebook_path(file_path) {
        return Err(notebook_refusal());
    }
    if let Some(message) = edit_target_error(path, probe) {
        return Err(message);
    }
    match original {
        Err(error) => Err(read_failed_message(path, error.as_str())),
        Ok(text) => match plan_edit(text.as_str(), request) {
            Err(e) => Err(e.message()),
            Ok(plan) => Ok(plan),
        },
    }
}

/// Decides a `write_file` call: either the text the model is told, or the plan to create
/// the file with the patch the user is asked to approve.
pub fn write_file_decision(path: &str, probe: &MetadataProbe, content: String) -> (decision: Result<
    (WritePlan, String),
    String,
>)
    ensures
        match write_target_error_spec(path@, probe@) {
            Some(m) => decision matches Err(r) && r@ == m,
            None => decision matches Ok((plan, patch)) && plan.content@ == content@ && patch@
                == write_approval_patch_spec(path@, content@),
        },
{
    if let Some(message) = write_target_error(path, probe) {
        return Err(message);
    }
    let patch = write_approval_patch(path, content.as_str());
    Ok((WritePlan { content }, patch))
}

} // verus!
