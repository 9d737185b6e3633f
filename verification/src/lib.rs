//! Provider-neutral model-wire adaptation and pure planning logic for the
//! `read_file`, `edit_file` and `write_file` tools, with their contracts.

pub mod text;
pub mod read;
pub mod lines;
pub mod edit;
pub mod protocol;
pub mod tool_spec;
pub mod capabilities;
pub mod tool_plan;
pub mod canonical;
pub mod chat;
pub mod chat_stream;
pub mod file_tool_specs;
pub mod handlers;
pub mod file_mutation;
pub mod policy;
pub mod write_plan;
pub mod status_line;
