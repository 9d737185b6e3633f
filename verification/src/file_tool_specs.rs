//! The specifications of the `read_file`, `edit_file` and `write_file` tools as they are
//! offered to the model. Argument schemas are JSON text.
use vstd::prelude::*;

use crate::tool_spec::{FunctionTool, FunctionToolView, ToolSpec, ToolSpecView};

verus! {

pub const EDIT_FILE_DESCRIPTION: &'static str = "Performs exact string replacement in a single file. Prefer this over apply_patch for single-file precise edits. Read the file first with the read_file tool and copy the exact text; read_file's `NNN→` line-number prefix is not part of the file, so strip it from old_string and new_string. The edit fails if old_string is not unique (pass more context or set replace_all).";

pub const EDIT_FILE_PARAMETERS: &'static str = "{\"additionalProperties\":false,\"properties\":{\"file_path\":{\"description\":\"Absolute path to the file to modify.\",\"type\":\"string\"},\"new_string\":{\"description\":\"The text to replace it with. Must be different from old_string.\",\"type\":\"string\"},\"old_string\":{\"description\":\"The exact text to replace, copied verbatim from the file (or from read output with the `NNN→` line-number prefix removed). Must be unique in the file unless replace_all is true.\",\"type\":\"string\"},\"replace_all\":{\"description\":\"Replace all occurrences of old_string. Defaults to false.\",\"type\":\"boolean\"}},\"required\":[\"file_path\",\"old_string\",\"new_string\"],\"type\":\"object\"}";

pub const READ_FILE_DESCRIPTION: &'static str = "Reads a text file from the local filesystem. Returns lines in `cat -n` format: a right-aligned line number, then `→`, then the line's exact text. Line numbers are for reference only — never include the `NNN→` prefix in edit_file.old_string or new_string. Reads are bounded: if the requested range is truncated, the output ends with a note telling you the next offset to continue from. Non-UTF-8 files (images, binaries) are rejected; use view_image for images.";

pub const READ_FILE_PARAMETERS: &'static str = "{\"additionalProperties\":false,\"properties\":{\"file_path\":{\"description\":\"Absolute path to the file to read.\",\"type\":\"string\"},\"limit\":{\"description\":\"Maximum number of lines to return. Omit to use the default. Use offset + limit to read a file in chunks when it is too large to read at once.\",\"type\":\"integer\"},\"offset\":{\"description\":\"1-based line number to start reading from. Omit to start at line 1.\",\"type\":\"integer\"}},\"required\":[\"file_path\"],\"type\":\"object\"}";

pub const WRITE_FILE_DESCRIPTION: &'static str = "Creates a new file with the given content. Parent directories are created automatically. This tool creates files only: it fails if the path already exists. To change an existing file, use edit_file for targeted replacements, or apply_patch for a full rewrite.";

pub const WRITE_FILE_PARAMETERS: &'static str = "{\"additionalProperties\":false,\"properties\":{\"content\":{\"description\":\"The full content of the new file.\",\"type\":\"string\"},\"file_path\":{\"description\":\"Absolute path to the new file to create. Parent directories are created automatically.\",\"type\":\"string\"}},\"required\":[\"file_path\",\"content\"],\"type\":\"object\"}";

pub open spec fn function_spec(name: Seq<char>, description: Seq<char>, parameters: Seq<char>) -> ToolSpecView {
    ToolSpecView::Function(
        FunctionToolView {
            name,
            description,
            strict: false,
            defer_loading: None,
            parameters,
            output_schema: None,
        },
    )
}

pub open spec fn edit_file_tool_spec() -> ToolSpecView {
    function_spec("edit_file"@, EDIT_FILE_DESCRIPTION@, EDIT_FILE_PARAMETERS@)
}

pub open spec fn read_file_tool_spec() -> ToolSpecView {
    function_spec("read_file"@, READ_FILE_DESCRIPTION@, READ_FILE_PARAMETERS@)
}

pub open spec fn write_file_tool_spec() -> ToolSpecView {
    function_spec("write_file"@, WRITE_FILE_DESCRIPTION@, WRITE_FILE_PARAMETERS@)
}

fn function_tool(name: &str, description: &str, parameters: &str) -> (tool: ToolSpec)
    ensures
        tool@ == function_spec(name@, description@, parameters@),
{
    ToolSpec::Function(
        FunctionTool {
            name: String::from_str(name),
            description: String::from_str(description),
            strict: false,
            defer_loading: None,
            parameters: String::from_str(parameters),
            output_schema: None,
        },
    )
}

/// Creates the JSON function spec for precise single-file edits.
pub fn create_edit_file_tool() -> (tool: ToolSpec)
    ensures
        tool@ == edit_file_tool_spec(),
{
    function_tool("edit_file", EDIT_FILE_DESCRIPTION, EDIT_FILE_PARAMETERS)
}

/// Creates the JSON function spec for bounded, line-numbered text reads.
pub fn create_read_file_tool() -> (tool: ToolSpec)
    ensures
        tool@ == read_file_tool_spec(),
{
    function_tool("read_file", READ_FILE_DESCRIPTION, READ_FILE_PARAMETERS)
}

/// Creates the JSON function spec for create-only file writes.
pub fn create_write_file_tool() -> (tool: ToolSpec)
    ensures
        tool@ == write_file_tool_spec(),
{
    function_tool("write_file", WRITE_FILE_DESCRIPTION, WRITE_FILE_PARAMETERS)
}

} // verus!
