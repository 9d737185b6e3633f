//! Pure plan for the create-only `write_file` tool.
use vstd::prelude::*;

verus! {

/// A validated request to create a new file.
#[derive(Clone, Debug, PartialEq, Eq)]
pub struct WritePlan {
    pub content: String,
}

} // verus!
